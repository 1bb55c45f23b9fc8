//! Text as a sequence of characters: searching, splitting, trimming, joining.
//!
//! The spec functions say what each operation means on sequences of
//! characters; the executable functions of the same name compute it on `&str`.
use vstd::prelude::*;
use vstd::utf8::{encode_utf8, is_ascii_chars};

verus! {

/// `String::push` appends one character.
pub assume_specification[ String::push ](s: &mut String, c: char)
    ensures
        final(s)@ == old(s)@.push(c),
;

/// What `str::to_lowercase` makes of a text that is not all ASCII.
pub uninterp spec fn unicode_lowered(s: Seq<char>) -> Seq<char>;

/// The lowercase of a text.
pub open spec fn lowered(s: Seq<char>) -> Seq<char> {
    if is_ascii_chars(s) {
        s.map_values(|c: char| ascii_lower(c))
    } else {
        unicode_lowered(s)
    }
}

/// `str::to_lowercase`: the Unicode lowercase of the text. On a text of ASCII
/// characters it maps `A` to `Z` onto `a` to `z` and keeps the rest.
#[verifier::external_body]
pub(crate) fn to_lowercase(s: &str) -> (r: String)
    ensures
        r@ == lowered(s@),
        !is_ascii_chars(s@) ==> r@ == unicode_lowered(s@),
{
    s.to_lowercase()
}

/// The text that `String::from_utf8_lossy` reads in some bytes.
pub uninterp spec fn lossy(b: Seq<u8>) -> Seq<char>;

/// `String::from_utf8_lossy`: the text that some bytes encode, with a replacement
/// character for what is not UTF-8. ASCII bytes are read one by one.
#[verifier::external_body]
pub(crate) fn from_utf8_lossy(b: &[u8]) -> (r: String)
    ensures
        r@ == lossy(b@),
        (forall|i: int| 0 <= i < b@.len() ==> (#[trigger] b@[i]) < 128) ==> r@ == b@.map_values(
            |x: u8| x as char,
        ),
{
    String::from_utf8_lossy(b).into_owned()
}

/// The lowercase of an ASCII letter; every other character stays.
pub open spec fn ascii_lower(c: char) -> char {
    if 'A' <= c <= 'Z' {
        ((c as u32 + 32) as u32) as char
    } else {
        c
    }
}

// ---------------------------------------------------------------- models

/// The texts of a sequence of strings.
pub open spec fn texts(v: Seq<String>) -> Seq<Seq<char>> {
    v.map_values(|s: String| s@)
}

/// The text of a string, if there is one.
pub open spec fn maybe(o: Option<String>) -> Option<Seq<char>> {
    match o {
        Some(s) => Some(s@),
        None => None,
    }
}

/// `p` stands in `s` at position `i`.
pub open spec fn occurs_at(s: Seq<char>, p: Seq<char>, i: int) -> bool {
    &&& 0 <= i
    &&& i + p.len() <= s.len()
    &&& s.subrange(i, i + p.len()) == p
}

/// `p` stands somewhere in `s`.
pub open spec fn contains(s: Seq<char>, p: Seq<char>) -> bool {
    exists|i: int| occurs_at(s, p, i)
}

/// The first position, from `i` on, at which `p` stands in `s`.
pub open spec fn find_from(s: Seq<char>, p: Seq<char>, i: int) -> Option<int>
    decreases s.len() + 1 - i,
{
    if i < 0 || i + p.len() > s.len() {
        None
    } else if occurs_at(s, p, i) {
        Some(i)
    } else {
        find_from(s, p, i + 1)
    }
}

/// The first position at which `p` stands in `s`.
pub open spec fn find(s: Seq<char>, p: Seq<char>) -> Option<int> {
    find_from(s, p, 0)
}

/// `s` begins with `p`.
pub open spec fn starts(s: Seq<char>, p: Seq<char>) -> bool {
    occurs_at(s, p, 0)
}

/// `s` ends with `p`.
pub open spec fn ends(s: Seq<char>, p: Seq<char>) -> bool {
    occurs_at(s, p, s.len() - p.len())
}

/// The pieces of `s` between the occurrences of `sep`, taken from the left; the
/// whole of `s` where `sep` is empty.
pub open spec fn split(s: Seq<char>, sep: Seq<char>) -> Seq<Seq<char>>
    decreases s.len(),
{
    match find(s, sep) {
        Some(i) if sep.len() > 0 && 0 <= i && i + sep.len() <= s.len() => seq![s.take(i)]
            + split(s.skip(i + sep.len()), sep),
        _ => seq![s],
    }
}

/// The part before the first `sep` and the part after it.
pub open spec fn split_once(s: Seq<char>, sep: Seq<char>) -> Option<(Seq<char>, Seq<char>)> {
    match find(s, sep) {
        Some(i) => Some((s.take(i), s.skip(i + sep.len()))),
        None => None,
    }
}

/// The piece of `s` before the first `sep`, or all of `s`.
pub open spec fn before(s: Seq<char>, sep: Seq<char>) -> Seq<char> {
    match find(s, sep) {
        Some(i) => s.take(i),
        None => s,
    }
}

/// The piece that follows the first `sep`, up to the next one.
pub open spec fn second_piece(s: Seq<char>, sep: Seq<char>) -> Option<Seq<char>> {
    match find(s, sep) {
        Some(i) => Some(before(s.skip(i + sep.len()), sep)),
        None => None,
    }
}

/// The White_Space property of Unicode.
pub open spec fn is_space(c: char) -> bool {
    let n = c as u32;
    ||| 0x9 <= n <= 0xd
    ||| n == 0x20
    ||| n == 0x85
    ||| n == 0xa0
    ||| n == 0x1680
    ||| 0x2000 <= n <= 0x200a
    ||| n == 0x2028
    ||| n == 0x2029
    ||| n == 0x202f
    ||| n == 0x205f
    ||| n == 0x3000
}

/// `s` without the whitespace it begins with.
pub open spec fn trim_start(s: Seq<char>) -> Seq<char>
    decreases s.len(),
{
    if s.len() > 0 && is_space(s[0]) {
        trim_start(s.skip(1))
    } else {
        s
    }
}

/// `s` without the whitespace it ends with.
pub open spec fn trim_end(s: Seq<char>) -> Seq<char>
    decreases s.len(),
{
    if s.len() > 0 && is_space(s[s.len() - 1]) {
        trim_end(s.take(s.len() - 1))
    } else {
        s
    }
}

/// `s` without the whitespace around it.
pub open spec fn trim(s: Seq<char>) -> Seq<char> {
    trim_end(trim_start(s))
}

/// `s` without the characters of `set` that it begins with.
pub open spec fn strip_start(s: Seq<char>, set: Seq<char>) -> Seq<char>
    decreases s.len(),
{
    if s.len() > 0 && set.contains(s[0]) {
        strip_start(s.skip(1), set)
    } else {
        s
    }
}

/// `s` without the characters of `set` that it ends with.
pub open spec fn strip_end(s: Seq<char>, set: Seq<char>) -> Seq<char>
    decreases s.len(),
{
    if s.len() > 0 && set.contains(s[s.len() - 1]) {
        strip_end(s.take(s.len() - 1), set)
    } else {
        s
    }
}

/// `s` without the copies of `p` that it begins with.
pub open spec fn strip_prefixes(s: Seq<char>, p: Seq<char>) -> Seq<char>
    decreases s.len(),
{
    if p.len() > 0 && starts(s, p) {
        strip_prefixes(s.skip(p.len() as int), p)
    } else {
        s
    }
}

/// `s` without the copies of `p` that it ends with.
pub open spec fn strip_suffixes(s: Seq<char>, p: Seq<char>) -> Seq<char>
    decreases s.len(),
{
    if p.len() > 0 && ends(s, p) {
        strip_suffixes(s.take(s.len() - p.len()), p)
    } else {
        s
    }
}

/// `s` without one carriage return at its end.
pub open spec fn strip_cr(s: Seq<char>) -> Seq<char> {
    if s.len() > 0 && s[s.len() - 1] == '\r' {
        s.take(s.len() - 1)
    } else {
        s
    }
}

/// The position of the first line feed.
pub open spec fn newline_at(s: Seq<char>) -> Option<int> {
    find(s, seq!['\n'])
}

/// The lines of `s`: a line ends with a line feed, which may follow a carriage
/// return; the last one may end with the text.
pub open spec fn lines(s: Seq<char>) -> Seq<Seq<char>>
    decreases s.len(),
{
    if s.len() == 0 {
        seq![]
    } else {
        match newline_at(s) {
            Some(i) if 0 <= i < s.len() => seq![strip_cr(s.take(i))] + lines(s.skip(i + 1)),
            _ => seq![s],
        }
    }
}

/// How many characters of `s` stand before its first whitespace.
pub open spec fn word_len(s: Seq<char>) -> nat
    decreases s.len(),
{
    if s.len() == 0 || is_space(s[0]) {
        0
    } else {
        1 + word_len(s.skip(1))
    }
}

/// The words of `s`: its longest pieces without whitespace.
pub open spec fn words(s: Seq<char>) -> Seq<Seq<char>>
    decreases s.len(),
{
    if s.len() == 0 {
        seq![]
    } else if is_space(s[0]) {
        words(s.skip(1))
    } else {
        let n = word_len(s);
        if 0 < n <= s.len() {
            seq![s.take(n as int)] + words(s.skip(n as int))
        } else {
            seq![]
        }
    }
}

/// The parts in a row, with `sep` between each two.
pub open spec fn join(parts: Seq<Seq<char>>, sep: Seq<char>) -> Seq<char>
    decreases parts.len(),
{
    if parts.len() == 0 {
        seq![]
    } else if parts.len() == 1 {
        parts[0]
    } else {
        join(parts.drop_last(), sep) + sep + parts.last()
    }
}

/// `s` with every `from` replaced by `to`.
pub open spec fn replace(s: Seq<char>, from: Seq<char>, to: Seq<char>) -> Seq<char> {
    join(split(s, from), to)
}

/// The first `n` characters of `s`, or all of them.
pub open spec fn first(s: Seq<char>, n: nat) -> Seq<char> {
    if n < s.len() {
        s.take(n as int)
    } else {
        s
    }
}

/// The length of `s` in UTF-8 bytes.
pub open spec fn byte_len(s: Seq<char>) -> nat {
    encode_utf8(s).len()
}

/// `a` comes before `b` in the order of code points.
pub open spec fn text_lt(a: Seq<char>, b: Seq<char>) -> bool
    decreases a.len(),
{
    if b.len() == 0 {
        false
    } else if a.len() == 0 {
        true
    } else if a[0] != b[0] {
        a[0] < b[0]
    } else {
        text_lt(a.skip(1), b.skip(1))
    }
}

// ---------------------------------------------------------------- lemmas

/// A position that the search gives is an occurrence, and no earlier one is.
pub proof fn find_from_is_first(s: Seq<char>, p: Seq<char>, i: int)
    requires
        0 <= i,
    ensures
        match find_from(s, p, i) {
            Some(k) => i <= k && occurs_at(s, p, k) && forall|j: int|
                i <= j < k ==> !occurs_at(s, p, j),
            None => forall|j: int| i <= j ==> !occurs_at(s, p, j),
        },
    decreases s.len() + 1 - i,
{
    if i + p.len() > s.len() {
    } else if occurs_at(s, p, i) {
    } else {
        find_from_is_first(s, p, i + 1);
    }
}

/// A text contains another exactly when the search finds it.
pub proof fn contains_iff_found(s: Seq<char>, p: Seq<char>)
    ensures
        contains(s, p) == (find(s, p) is Some),
{
    find_from_is_first(s, p, 0);
}

proof fn occurs_shift(s: Seq<char>, p: Seq<char>, k: int, i: int)
    requires
        0 <= k <= s.len(),
        0 <= i,
    ensures
        occurs_at(s.skip(k), p, i) == occurs_at(s, p, k + i),
{
    if i + p.len() <= s.len() - k {
        assert(s.skip(k).subrange(i, i + p.len()) =~= s.subrange(k + i, k + i + p.len()));
    }
}

proof fn find_shift(s: Seq<char>, p: Seq<char>, k: int, i: int)
    requires
        0 <= k <= s.len(),
        0 <= i,
    ensures
        match find_from(s, p, k + i) {
            Some(n) => find_from(s.skip(k), p, i) == Some(n - k),
            None => find_from(s.skip(k), p, i) is None,
        },
    decreases s.len() + 1 - i,
{
    occurs_shift(s, p, k, i);
    if i + p.len() <= s.len() - k && !occurs_at(s, p, k + i) {
        find_shift(s, p, k, i + 1);
    }
}

/// The empty text comes before every text that is not empty, and no text
/// before itself.
pub proof fn text_lt_irreflexive(a: Seq<char>)
    ensures
        !text_lt(a, a),
    decreases a.len(),
{
    if a.len() > 0 {
        text_lt_irreflexive(a.skip(1));
    }
}

/// The order of texts is transitive.
pub proof fn text_lt_transitive(a: Seq<char>, b: Seq<char>, c: Seq<char>)
    requires
        text_lt(a, b),
        text_lt(b, c),
    ensures
        text_lt(a, c),
    decreases a.len(),
{
    if a.len() > 0 && b.len() > 0 && c.len() > 0 && a[0] == b[0] && b[0] == c[0] {
        text_lt_transitive(a.skip(1), b.skip(1), c.skip(1));
    }
}

/// Of two different texts one comes before the other.
pub proof fn text_lt_total(a: Seq<char>, b: Seq<char>)
    ensures
        a == b || text_lt(a, b) || text_lt(b, a),
    decreases a.len(),
{
    if a.len() > 0 && b.len() > 0 && a[0] == b[0] {
        text_lt_total(a.skip(1), b.skip(1));
        if a.skip(1) == b.skip(1) {
            assert(a =~= seq![a[0]] + a.skip(1));
            assert(b =~= seq![b[0]] + b.skip(1));
        }
    } else if a.len() == 0 && b.len() == 0 {
        assert(a =~= b);
    }
}

/// None of the texts holds a line feed.
pub open spec fn unbroken(ls: Seq<Seq<char>>) -> bool {
    forall|i: int| 0 <= i < ls.len() ==> !(#[trigger] ls[i]).contains('\n')
}

/// A character is found behind a text that does not hold it.
pub proof fn found_behind(a: Seq<char>, c: char, b: Seq<char>)
    requires
        !a.contains(c),
    ensures
        find(a + seq![c] + b, seq![c]) == Some(a.len() as int),
        (a + seq![c] + b).take(a.len() as int) == a,
        (a + seq![c] + b).skip(a.len() as int + 1) == b,
{
    let p = seq![c];
    let s = a + p + b;
    let n = a.len() as int;
    assert(s.subrange(n, n + 1) =~= p);
    assert(occurs_at(s, p, n));
    find_from_is_first(s, p, 0);
    let k = find(s, p)->0;
    if k < n {
        assert(s.subrange(k, k + 1)[0] == c);
        assert(a[k] == c);
    }
    assert(s.take(n) =~= a);
    assert(s.skip(n + 1) =~= b);
}

/// A character that a text does not hold is not found in it.
pub proof fn not_found(a: Seq<char>, c: char)
    requires
        !a.contains(c),
    ensures
        find(a, seq![c]) is None,
        split(a, seq![c]) == seq![a],
        before(a, seq![c]) == a,
{
    let p = seq![c];
    find_from_is_first(a, p, 0);
    if let Some(k) = find(a, p) {
        assert(a.subrange(k, k + 1)[0] == c);
        assert(a[k] == c);
    }
}

/// A text is split at a character behind a piece that does not hold it.
pub proof fn split_behind(a: Seq<char>, c: char, b: Seq<char>)
    requires
        !a.contains(c),
    ensures
        split(a + seq![c] + b, seq![c]) == seq![a] + split(b, seq![c]),
        before(a + seq![c] + b, seq![c]) == a,
{
    found_behind(a, c, b);
}

/// One character between two pieces that do not hold it is replaced.
pub proof fn replaced_once(a: Seq<char>, c: char, b: Seq<char>, to: Seq<char>)
    requires
        !a.contains(c),
        !b.contains(c),
    ensures
        replace(a + seq![c] + b, seq![c], to) == a + to + b,
{
    split_behind(a, c, b);
    not_found(b, c);
    let parts = seq![a] + seq![b];
    assert(parts.drop_last() =~= seq![a]);
    assert(parts.last() == b);
    reveal_with_fuel(join, 2);
}

proof fn word_before(a: Seq<char>, b: Seq<char>)
    requires
        forall|i: int| 0 <= i < a.len() ==> !is_space(#[trigger] a[i]),
        b.len() > 0 ==> is_space(b[0]),
    ensures
        word_len(a + b) == a.len(),
    decreases a.len(),
{
    let s = a + b;
    if a.len() > 0 {
        assert(s[0] == a[0]);
        assert(s.skip(1) =~= a.skip(1) + b);
        assert forall|i: int| 0 <= i < a.skip(1).len() implies !is_space(
            #[trigger] a.skip(1)[i],
        ) by {
            assert(a.skip(1)[i] == a[i + 1]);
        }
        word_before(a.skip(1), b);
    } else {
        assert(s =~= b);
    }
}

/// Two pieces without whitespace, with a space between them, are two words.
pub proof fn two_words(a: Seq<char>, b: Seq<char>)
    requires
        a.len() > 0,
        b.len() > 0,
        forall|i: int| 0 <= i < a.len() ==> !is_space(#[trigger] a[i]),
        forall|i: int| 0 <= i < b.len() ==> !is_space(#[trigger] b[i]),
    ensures
        words(a + seq![' '] + b) == seq![a, b],
{
    let r = seq![' '] + b;
    let s = a + seq![' '] + b;
    assert(s =~= a + r);
    word_before(a, r);
    assert(s[0] == a[0]);
    assert(s.take(a.len() as int) =~= a);
    assert(s.skip(a.len() as int) =~= r);
    assert(r.skip(1) =~= b);
    word_before(b, seq![]);
    assert(b + Seq::<char>::empty() =~= b);
    assert(b.take(b.len() as int) =~= b);
    assert(b.skip(b.len() as int) =~= seq![]);
    assert(words(Seq::<char>::empty()) =~= seq![]);
    assert(words(b) =~= seq![b]);
    assert(words(r) =~= seq![b]);
    assert(words(s) =~= seq![a, b]);
}

/// No line holds a line feed.
pub proof fn lines_are_unbroken(s: Seq<char>)
    ensures
        unbroken(lines(s)),
    decreases s.len(),
{
    if s.len() > 0 {
        let nl = seq!['\n'];
        find_from_is_first(s, nl, 0);
        match newline_at(s) {
            Some(i) => {
                let a = s.take(i);
                let r = lines(s.skip(i + 1));
                lines_are_unbroken(s.skip(i + 1));
                assert forall|j: int| 0 <= j < a.len() implies a[j] != '\n' by {
                    if a[j] == '\n' {
                        assert(s.subrange(j, j + 1) =~= nl);
                        assert(occurs_at(s, nl, j));
                    }
                }
                let c = strip_cr(a);
                assert(!c.contains('\n'));
                assert forall|j: int| 0 <= j < lines(s).len() implies !(#[trigger] lines(
                    s,
                )[j]).contains('\n') by {
                    if j == 0 {
                        assert(lines(s)[0] == c);
                    } else {
                        assert(lines(s)[j] == r[j - 1]);
                    }
                }
            },
            None => {
                assert forall|j: int| 0 <= j < s.len() implies s[j] != '\n' by {
                    if s[j] == '\n' {
                        assert(s.subrange(j, j + 1) =~= nl);
                        assert(occurs_at(s, nl, j));
                    }
                }
            },
        }
    }
}

/// A text of whole lines: it is empty, or ends with a line feed.
pub open spec fn whole_lines(s: Seq<char>) -> bool {
    s.len() == 0 || s.last() == '\n'
}

/// What stands behind whole lines is read as lines of its own.
pub proof fn lines_of_two(a: Seq<char>, b: Seq<char>)
    requires
        whole_lines(a),
    ensures
        lines(a + b) == lines(a) + lines(b),
    decreases a.len(),
{
    if a.len() == 0 {
        assert(a + b =~= b);
        assert(lines(a) + lines(b) =~= lines(b));
    } else {
        let nl = seq!['\n'];
        let s = a + b;
        find_from_is_first(a, nl, 0);
        find_from_is_first(s, nl, 0);
        assert(a.subrange(a.len() - 1, a.len() as int) =~= nl);
        assert(occurs_at(a, nl, a.len() - 1));
        let i = find(a, nl)->0;
        let k = find(s, nl)->0;
        assert(a.subrange(i, i + 1) =~= s.subrange(i, i + 1));
        assert(occurs_at(s, nl, i));
        if k < i {
            assert(a.subrange(k, k + 1) =~= s.subrange(k, k + 1));
            assert(occurs_at(a, nl, k));
        }
        assert(k == i);
        assert(s.take(i) =~= a.take(i));
        assert(s.skip(i + 1) =~= a.skip(i + 1) + b);
        lines_of_two(a.skip(i + 1), b);
        assert(lines(s) =~= lines(a) + lines(b));
    }
}

/// Texts in a row begin with the first one.
pub proof fn join_from_front(parts: Seq<Seq<char>>, sep: Seq<char>)
    requires
        parts.len() >= 2,
    ensures
        join(parts, sep) == parts[0] + sep + join(parts.skip(1), sep),
    decreases parts.len(),
{
    let d = parts.drop_last();
    let r = parts.skip(1);
    if parts.len() == 2 {
        assert(join(d, sep) == parts[0]);
        assert(join(r, sep) == parts[1]);
    } else {
        join_from_front(d, sep);
        assert(d.skip(1) =~= r.drop_last());
        assert(r.last() == parts.last());
        assert(join(parts, sep) =~= parts[0] + sep + join(r, sep));
    }
}

/// Texts written one to a line are read as these lines; a carriage return at the
/// end of a text is taken for part of the line end.
pub proof fn lines_of_joined(ls: Seq<Seq<char>>)
    requires
        unbroken(ls),
        ls.len() > 0,
    ensures
        lines(join(ls, seq!['\n']) + seq!['\n']) == ls.map_values(|l: Seq<char>| strip_cr(l)),
    decreases ls.len(),
{
    let nl = seq!['\n'];
    let m = ls.map_values(|l: Seq<char>| strip_cr(l));
    let s = join(ls, nl) + nl;
    assert(!ls[0].contains('\n'));
    if ls.len() == 1 {
        assert(s =~= ls[0] + nl + seq![]);
        found_behind(ls[0], '\n', seq![]);
        assert(lines(Seq::<char>::empty()) =~= seq![]);
        assert(lines(s) =~= m);
    } else {
        let r = ls.skip(1);
        join_from_front(ls, nl);
        let b = join(r, nl) + nl;
        assert(s =~= ls[0] + nl + b);
        found_behind(ls[0], '\n', b);
        assert(unbroken(r)) by {
            assert forall|i: int| 0 <= i < r.len() implies !(#[trigger] r[i]).contains('\n') by {
                assert(!ls[i + 1].contains('\n'));
            }
        }
        lines_of_joined(r);
        assert(lines(s) =~= m);
    }
}

/// What is cut off the start of a text is whitespace.
pub proof fn trim_start_cuts(s: Seq<char>)
    ensures
        trim_start(s).len() <= s.len(),
        trim_start(s) == s.skip(s.len() - trim_start(s).len()),
        forall|i: int| 0 <= i < s.len() - trim_start(s).len() ==> is_space(#[trigger] s[i]),
        trim_start(s).len() > 0 ==> !is_space(trim_start(s)[0]),
    decreases s.len(),
{
    if s.len() > 0 && is_space(s[0]) {
        trim_start_cuts(s.skip(1));
        assert(s.skip(1).skip(s.len() - 1 - trim_start(s).len()) =~= s.skip(
            s.len() - trim_start(s).len(),
        ));
        assert forall|i: int| 0 <= i < s.len() - trim_start(s).len() implies is_space(
            #[trigger] s[i],
        ) by {
            if i > 0 {
                assert(s.skip(1)[i - 1] == s[i]);
            }
        }
    } else {
        assert(s.skip(0) =~= s);
    }
}

/// What follows a text that is not all whitespace does not change how it begins.
pub proof fn trim_start_appends(a: Seq<char>, b: Seq<char>)
    requires
        trim_start(a).len() > 0,
    ensures
        trim_start(a + b) == trim_start(a) + b,
    decreases a.len(),
{
    if a.len() > 0 && is_space(a[0]) {
        assert((a + b).skip(1) =~= a.skip(1) + b);
        trim_start_appends(a.skip(1), b);
    }
}

// ---------------------------------------------------------------- characters

/// The characters of `s`, one element each.
pub fn chars_of(s: &str) -> (v: Vec<char>)
    ensures
        v@ == s@,
{
    let mut v: Vec<char> = Vec::new();
    for c in it: s.chars()
        invariant
            v@ == it.seq().take(it.index() as int),
            it.seq() == s@,
    {
        v.push(c);
    }
    v
}

/// The text made of the characters of `v` from `from` up to `to`.
pub fn string_of(v: &Vec<char>, from: usize, to: usize) -> (s: String)
    requires
        from <= to <= v@.len(),
    ensures
        s@ == v@.subrange(from as int, to as int),
{
    let mut s = String::new();
    let mut i: usize = from;
    while i < to
        invariant
            from <= i <= to <= v@.len(),
            s@ == v@.subrange(from as int, i as int),
        decreases to - i,
    {
        s.push(v[i]);
        assert(v@.subrange(from as int, i as int).push(v@[i as int]) =~= v@.subrange(
            from as int,
            i + 1,
        ));
        i += 1;
    }
    s
}

/// Whether `c` is whitespace.
pub fn is_space_char(c: char) -> (r: bool)
    ensures
        r == is_space(c),
{
    let n: u32 = c as u32;
    (0x9 <= n && n <= 0xd) || n == 0x20 || n == 0x85 || n == 0xa0 || n == 0x1680 || (0x2000 <= n
        && n <= 0x200a) || n == 0x2028 || n == 0x2029 || n == 0x202f || n == 0x205f || n == 0x3000
}

/// Whether `set` holds `c`.
fn holds(set: &Vec<char>, c: char) -> (r: bool)
    ensures
        r == set@.contains(c),
{
    let mut i: usize = 0;
    while i < set.len()
        invariant
            i <= set@.len(),
            forall|j: int| 0 <= j < i ==> set@[j] != c,
        decreases set@.len() - i,
    {
        if set[i] == c {
            return true;
        }
        i += 1;
    }
    false
}

/// Whether two texts are the same.
pub fn same(a: &str, b: &str) -> (r: bool)
    ensures
        r == (a@ == b@),
{
    a.to_owned() == b.to_owned()
}

/// Whether a text is among some strings.
pub fn among(s: &str, list: &Vec<String>) -> (r: bool)
    ensures
        r == texts(list@).contains(s@),
{
    let mut i: usize = 0;
    while i < list.len()
        invariant
            i <= list@.len(),
            forall|j: int| 0 <= j < i ==> texts(list@)[j] != s@,
        decreases list@.len() - i,
    {
        if same(list[i].as_str(), s) {
            assert(texts(list@)[i as int] == s@);
            return true;
        }
        i += 1;
    }
    false
}

// ---------------------------------------------------------------- searching

fn stands_at(v: &Vec<char>, p: &Vec<char>, i: usize) -> (r: bool)
    requires
        i <= v@.len(),
    ensures
        r == occurs_at(v@, p@, i as int),
{
    if p.len() > v.len() - i {
        return false;
    }
    let n: usize = v.len();
    let mut k: usize = 0;
    while k < p.len()
        invariant
            k <= p@.len(),
            i + p@.len() <= v@.len() == n,
            forall|j: int| 0 <= j < k ==> v@[i + j] == p@[j],
        decreases p@.len() - k,
    {
        if v[i + k] != p[k] {
            assert(v@.subrange(i as int, i + p@.len())[k as int] != p@[k as int]);
            return false;
        }
        k += 1;
    }
    assert(v@.subrange(i as int, i + p@.len()) =~= p@);
    true
}

/// The first position from `from` on at which `p` stands in `v`.
pub fn find_at(v: &Vec<char>, p: &Vec<char>, from: usize) -> (r: Option<usize>)
    requires
        from <= v@.len(),
    ensures
        match r {
            Some(k) => find_from(v@, p@, from as int) == Some(k as int) && from <= k && k + p@.len()
                <= v@.len(),
            None => find_from(v@, p@, from as int) is None,
        },
{
    let mut i: usize = from;
    while i <= v.len() && p.len() <= v.len() - i
        invariant
            from <= i <= v@.len() + 1,
            find_from(v@, p@, from as int) == find_from(v@, p@, i as int),
        decreases v@.len() + 1 - i,
    {
        if stands_at(v, p, i) {
            return Some(i);
        }
        if i == v.len() {
            assert(find_from(v@, p@, i + 1) is None);
            return None;
        }
        i += 1;
    }
    None
}

/// The position of the first character of the first `p` in `s`.
pub fn find_text(s: &str, p: &str) -> (r: Option<usize>)
    ensures
        match r {
            Some(k) => find(s@, p@) == Some(k as int) && k + p@.len() <= s@.len(),
            None => find(s@, p@) is None,
        },
{
    let v = chars_of(s);
    let q = chars_of(p);
    find_at(&v, &q, 0)
}

/// Whether `p` stands in `s`.
pub fn has(s: &str, p: &str) -> (r: bool)
    ensures
        r == contains(s@, p@),
{
    proof {
        contains_iff_found(s@, p@);
    }
    find_text(s, p).is_some()
}

/// Whether `s` begins with `p`.
pub fn begins(s: &str, p: &str) -> (r: bool)
    ensures
        r == starts(s@, p@),
{
    let v = chars_of(s);
    let q = chars_of(p);
    stands_at(&v, &q, 0)
}

/// Whether `s` ends with `p`.
pub fn finishes(s: &str, p: &str) -> (r: bool)
    ensures
        r == ends(s@, p@),
{
    let v = chars_of(s);
    let q = chars_of(p);
    if q.len() > v.len() {
        false
    } else {
        stands_at(&v, &q, v.len() - q.len())
    }
}

/// The text from position `from` up to position `to`.
pub fn slice(s: &str, from: usize, to: usize) -> (r: String)
    requires
        from <= to <= s@.len(),
    ensures
        r@ == s@.subrange(from as int, to as int),
{
    let v = chars_of(s);
    string_of(&v, from, to)
}

// ---------------------------------------------------------------- splitting

/// The pieces of `s` between the occurrences of `sep`.
pub fn pieces(s: &str, sep: &str) -> (r: Vec<String>)
    ensures
        texts(r@) == split(s@, sep@),
        r@.len() > 0,
{
    let v = chars_of(s);
    let q = chars_of(sep);
    let mut out: Vec<String> = Vec::new();
    let mut start: usize = 0;
    let n: usize = v.len();
    assert(v@.skip(0) =~= v@);
    assert(texts(out@) =~= seq![]);
    while q.len() > 0
        invariant_except_break
            start <= v@.len() == n,
            v@ == s@,
            q@ == sep@,
            split(s@, sep@) == texts(out@) + split(v@.skip(start as int), q@),
        ensures
            start <= v@.len(),
            v@ == s@,
            q@ == sep@,
            split(s@, sep@) == texts(out@).push(v@.skip(start as int)),
        decreases v@.len() - start,
    {
        proof {
            find_shift(v@, q@, start as int, 0);
        }
        match find_at(&v, &q, start) {
            Some(k) => {
                let ghost prev = out@;
                out.push(string_of(&v, start, k));
                proof {
                    let rest = v@.skip(start as int);
                    assert(rest.take(k - start) =~= v@.subrange(start as int, k as int));
                    assert(rest.skip(k - start + q@.len()) =~= v@.skip(k + q@.len()));
                    assert(texts(out@) =~= texts(prev).push(rest.take(k - start)));
                    assert(texts(out@) + split(v@.skip(k + q@.len()), q@) =~= texts(prev) + (seq![
                        rest.take(k - start),
                    ] + split(v@.skip(k + q@.len()), q@)));
                }
                start = k + q.len();
            },
            None => {
                assert(texts(out@) + seq![v@.skip(start as int)] =~= texts(out@).push(
                    v@.skip(start as int),
                ));
                break;
            },
        }
    }
    proof {
        if q@.len() == 0 {
            assert(texts(out@) + seq![v@.skip(0)] =~= texts(out@).push(v@.skip(0)));
        }
    }
    let ghost prev = out@;
    out.push(string_of(&v, start, v.len()));
    assert(v@.subrange(start as int, v@.len() as int) =~= v@.skip(start as int));
    assert(texts(out@) =~= texts(prev).push(v@.skip(start as int)));
    out
}

/// The parts of `s` before and after the first `sep`.
pub fn cut(s: &str, sep: &str) -> (r: Option<(String, String)>)
    ensures
        match r {
            Some((a, b)) => split_once(s@, sep@) == Some((a@, b@)),
            None => split_once(s@, sep@) is None,
        },
{
    let v = chars_of(s);
    let q = chars_of(sep);
    let n: usize = v.len();
    match find_at(&v, &q, 0) {
        Some(k) => {
            assert(v@.subrange(0, k as int) =~= v@.take(k as int));
            assert(v@.subrange(k + q@.len(), v@.len() as int) =~= v@.skip(k + q@.len()));
            Some((string_of(&v, 0, k), string_of(&v, k + q.len(), n)))
        },
        None => None,
    }
}

/// The piece of `s` before the first `sep`, or all of `s`.
pub fn head(s: &str, sep: &str) -> (r: String)
    ensures
        r@ == before(s@, sep@),
{
    match cut(s, sep) {
        Some((a, _)) => a,
        None => s.to_owned(),
    }
}

/// The piece of `s` between the first `sep` and the second, if there is a first.
pub fn second(s: &str, sep: &str) -> (r: Option<String>)
    ensures
        match r {
            Some(t) => second_piece(s@, sep@) == Some(t@),
            None => second_piece(s@, sep@) is None,
        },
{
    match cut(s, sep) {
        Some((_, b)) => Some(head(b.as_str(), sep)),
        None => None,
    }
}

/// The lines of `s`.
pub fn lines_of(s: &str) -> (r: Vec<String>)
    ensures
        texts(r@) == lines(s@),
{
    let v = chars_of(s);
    let mut q: Vec<char> = Vec::new();
    q.push('\n');
    let mut out: Vec<String> = Vec::new();
    let mut start: usize = 0;
    assert(v@.skip(0) =~= v@);
    assert(q@ =~= seq!['\n']);
    assert(texts(out@) + lines(s@) =~= lines(s@));
    while start < v.len()
        invariant
            start <= v@.len(),
            v@ == s@,
            q@ == seq!['\n'],
            lines(s@) == texts(out@) + lines(v@.skip(start as int)),
        decreases v@.len() - start,
    {
        let ghost rest = v@.skip(start as int);
        let ghost prev = out@;
        proof {
            find_shift(v@, q@, start as int, 0);
        }
        match find_at(&v, &q, start) {
            Some(k) => {
                assert(rest.take(k - start) =~= v@.subrange(start as int, k as int));
                assert(rest.skip(k - start + 1) =~= v@.skip(k + 1));
                let mut end: usize = k;
                if k > start && v[k - 1] == '\r' {
                    end = k - 1;
                }
                out.push(string_of(&v, start, end));
                proof {
                    assert(strip_cr(rest.take(k - start)) =~= v@.subrange(
                        start as int,
                        end as int,
                    ));
                    assert(texts(out@) =~= texts(prev).push(strip_cr(rest.take(k - start))));
                    assert(texts(out@) + lines(v@.skip(k + 1)) =~= texts(prev) + (seq![
                        strip_cr(rest.take(k - start)),
                    ] + lines(v@.skip(k + 1))));
                }
                start = k + 1;
            },
            None => {
                out.push(string_of(&v, start, v.len()));
                proof {
                    assert(v@.subrange(start as int, v@.len() as int) =~= rest);
                    assert(texts(out@) =~= texts(prev) + seq![rest]);
                    assert(lines(v@.skip(v@.len() as int)) =~= seq![]);
                    assert(texts(out@) + lines(v@.skip(v@.len() as int)) =~= texts(out@));
                }
                start = v.len();
            },
        }
    }
    assert(texts(out@) + lines(v@.skip(start as int)) =~= texts(out@));
    out
}

proof fn word_len_bound(s: Seq<char>)
    ensures
        word_len(s) <= s.len(),
        s.len() > 0 && !is_space(s[0]) ==> word_len(s) > 0,
    decreases s.len(),
{
    if s.len() > 0 && !is_space(s[0]) {
        word_len_bound(s.skip(1));
    }
}

/// The words of `s`.
pub fn words_of(s: &str) -> (r: Vec<String>)
    ensures
        texts(r@) == words(s@),
{
    let v = chars_of(s);
    let mut out: Vec<String> = Vec::new();
    let mut i: usize = 0;
    assert(v@.skip(0) =~= v@);
    assert(texts(out@) + words(s@) =~= words(s@));
    while i < v.len()
        invariant
            i <= v@.len(),
            v@ == s@,
            words(s@) == texts(out@) + words(v@.skip(i as int)),
        decreases v@.len() - i,
    {
        let ghost rest = v@.skip(i as int);
        if is_space_char(v[i]) {
            assert(rest.skip(1) =~= v@.skip(i + 1));
            i += 1;
        } else {
            proof {
                word_len_bound(rest);
            }
            let start: usize = i;
            while i < v.len() && !is_space_char(v[i])
                invariant
                    start <= i <= v@.len(),
                    rest == v@.skip(start as int),
                    word_len(rest) == (i - start) + word_len(v@.skip(i as int)),
                decreases v@.len() - i,
            {
                assert(v@.skip(i as int).skip(1) =~= v@.skip(i + 1));
                i += 1;
            }
            let ghost prev = out@;
            out.push(string_of(&v, start, i));
            proof {
                let n = word_len(rest) as int;
                assert(n == i - start);
                assert(rest.take(n) =~= v@.subrange(start as int, i as int));
                assert(rest.skip(n) =~= v@.skip(i as int));
                assert(texts(out@) =~= texts(prev).push(rest.take(n)));
                assert(texts(out@) + words(v@.skip(i as int)) =~= texts(prev) + (seq![rest.take(n)]
                    + words(v@.skip(i as int))));
            }
        }
    }
    assert(texts(out@) + words(v@.skip(i as int)) =~= texts(out@));
    out
}

// ---------------------------------------------------------------- trimming

/// `s` without the whitespace it begins with.
pub fn trimmed_start(s: &str) -> (r: String)
    ensures
        r@ == trim_start(s@),
{
    let v = chars_of(s);
    let mut i: usize = 0;
    assert(v@.skip(0) =~= v@);
    while i < v.len() && is_space_char(v[i])
        invariant
            i <= v@.len(),
            v@ == s@,
            trim_start(s@) == trim_start(v@.skip(i as int)),
        decreases v@.len() - i,
    {
        assert(v@.skip(i as int).skip(1) =~= v@.skip(i + 1));
        i += 1;
    }
    assert(v@.subrange(i as int, v@.len() as int) =~= v@.skip(i as int));
    string_of(&v, i, v.len())
}

/// `s` without the whitespace it ends with.
pub fn trimmed_end(s: &str) -> (r: String)
    ensures
        r@ == trim_end(s@),
{
    let v = chars_of(s);
    let mut n: usize = v.len();
    assert(v@.take(n as int) =~= v@);
    while n > 0 && is_space_char(v[n - 1])
        invariant
            n <= v@.len(),
            v@ == s@,
            trim_end(s@) == trim_end(v@.take(n as int)),
        decreases n,
    {
        assert(v@.take(n as int).take(n - 1) =~= v@.take(n - 1));
        n -= 1;
    }
    assert(v@.subrange(0, n as int) =~= v@.take(n as int));
    string_of(&v, 0, n)
}

/// `s` without the whitespace around it.
pub fn trimmed(s: &str) -> (r: String)
    ensures
        r@ == trim(s@),
{
    trimmed_end(trimmed_start(s).as_str())
}

/// `s` without the characters of `set` that it begins with.
pub fn stripped_start(s: &str, set: &str) -> (r: String)
    ensures
        r@ == strip_start(s@, set@),
{
    let v = chars_of(s);
    let q = chars_of(set);
    let mut i: usize = 0;
    assert(v@.skip(0) =~= v@);
    while i < v.len() && holds(&q, v[i])
        invariant
            i <= v@.len(),
            v@ == s@,
            q@ == set@,
            strip_start(s@, set@) == strip_start(v@.skip(i as int), q@),
        decreases v@.len() - i,
    {
        assert(v@.skip(i as int).skip(1) =~= v@.skip(i + 1));
        i += 1;
    }
    assert(v@.subrange(i as int, v@.len() as int) =~= v@.skip(i as int));
    string_of(&v, i, v.len())
}

/// `s` without the characters of `set` that it ends with.
pub fn stripped_end(s: &str, set: &str) -> (r: String)
    ensures
        r@ == strip_end(s@, set@),
{
    let v = chars_of(s);
    let q = chars_of(set);
    let mut n: usize = v.len();
    assert(v@.take(n as int) =~= v@);
    while n > 0 && holds(&q, v[n - 1])
        invariant
            n <= v@.len(),
            v@ == s@,
            q@ == set@,
            strip_end(s@, set@) == strip_end(v@.take(n as int), q@),
        decreases n,
    {
        assert(v@.take(n as int).take(n - 1) =~= v@.take(n - 1));
        n -= 1;
    }
    assert(v@.subrange(0, n as int) =~= v@.take(n as int));
    string_of(&v, 0, n)
}

/// `s` without the copies of `p` that it begins with.
pub fn without_prefixes(s: &str, p: &str) -> (r: String)
    ensures
        r@ == strip_prefixes(s@, p@),
{
    let v = chars_of(s);
    let q = chars_of(p);
    let n: usize = v.len();
    let mut i: usize = 0;
    assert(v@.skip(0) =~= v@);
    while q.len() > 0 && stands_at(&v, &q, i)
        invariant
            i <= v@.len() == n,
            v@ == s@,
            q@ == p@,
            strip_prefixes(s@, p@) == strip_prefixes(v@.skip(i as int), q@),
        decreases v@.len() - i,
    {
        proof {
            occurs_shift(v@, q@, i as int, 0);
        }
        assert(v@.skip(i as int).skip(q@.len() as int) =~= v@.skip(i + q@.len()));
        i += q.len();
    }
    proof {
        occurs_shift(v@, q@, i as int, 0);
    }
    assert(v@.subrange(i as int, v@.len() as int) =~= v@.skip(i as int));
    string_of(&v, i, v.len())
}

/// `s` without the copies of `p` that it ends with.
pub fn without_suffixes(s: &str, p: &str) -> (r: String)
    ensures
        r@ == strip_suffixes(s@, p@),
{
    let v = chars_of(s);
    let q = chars_of(p);
    let mut n: usize = v.len();
    assert(v@.take(n as int) =~= v@);
    while q.len() > 0 && q.len() <= n && stands_at(&v, &q, n - q.len())
        invariant
            n <= v@.len(),
            v@ == s@,
            q@ == p@,
            strip_suffixes(s@, p@) == strip_suffixes(v@.take(n as int), q@),
        decreases n,
    {
        assert(v@.take(n as int).subrange(n - q@.len(), n as int) =~= v@.subrange(
            n - q@.len(),
            n as int,
        ));
        assert(v@.take(n as int).take(n - q@.len()) =~= v@.take(n - q@.len()));
        n -= q.len();
    }
    proof {
        if q@.len() <= n {
            assert(v@.take(n as int).subrange(n - q@.len(), n as int) =~= v@.subrange(
                n - q@.len(),
                n as int,
            ));
        }
    }
    assert(v@.subrange(0, n as int) =~= v@.take(n as int));
    string_of(&v, 0, n)
}

/// The first `n` characters of `s`, or all of them.
pub fn first_chars(s: &str, n: usize) -> (r: String)
    ensures
        r@ == first(s@, n as nat),
{
    let v = chars_of(s);
    if n < v.len() {
        assert(v@.subrange(0, n as int) =~= v@.take(n as int));
        string_of(&v, 0, n)
    } else {
        s.to_owned()
    }
}

/// The length of `s` in UTF-8 bytes.
pub fn byte_count(s: &str) -> (r: usize)
    ensures
        r == byte_len(s@),
{
    s.as_bytes().len()
}

// ---------------------------------------------------------------- joining

/// The parts in a row, with `sep` between each two.
pub fn joined(parts: &Vec<String>, sep: &str) -> (r: String)
    ensures
        r@ == join(texts(parts@), sep@),
{
    let mut out = String::new();
    let mut i: usize = 0;
    assert(texts(parts@).take(0) =~= seq![]);
    while i < parts.len()
        invariant
            i <= parts@.len(),
            out@ == join(texts(parts@).take(i as int), sep@),
        decreases parts@.len() - i,
    {
        if i > 0 {
            out.append(sep);
        }
        out.append(parts[i].as_str());
        proof {
            let t = texts(parts@).take(i + 1);
            assert(t.drop_last() =~= texts(parts@).take(i as int));
            assert(t.last() == parts@[i as int]@);
            if i == 0 {
                assert(out@ =~= t[0]);
            }
        }
        i += 1;
    }
    assert(texts(parts@).take(parts@.len() as int) =~= texts(parts@));
    out
}

/// `s` with every `from` replaced by `to`.
pub fn replaced(s: &str, from: &str, to: &str) -> (r: String)
    ensures
        r@ == replace(s@, from@, to@),
{
    let p = pieces(s, from);
    joined(&p, to)
}

/// `a` followed by `b`.
pub fn cat(a: &str, b: &str) -> (r: String)
    ensures
        r@ == a@ + b@,
{
    let mut s = a.to_owned();
    s.append(b);
    s
}

/// Three texts in a row.
pub fn cat3(a: &str, b: &str, c: &str) -> (r: String)
    ensures
        r@ == a@ + b@ + c@,
{
    let mut s = a.to_owned();
    s.append(b);
    s.append(c);
    s
}

/// Four texts in a row.
pub fn cat4(a: &str, b: &str, c: &str, d: &str) -> (r: String)
    ensures
        r@ == a@ + b@ + c@ + d@,
{
    let mut s = cat3(a, b, c);
    s.append(d);
    s
}

/// Five texts in a row.
pub fn cat5(a: &str, b: &str, c: &str, d: &str, e: &str) -> (r: String)
    ensures
        r@ == a@ + b@ + c@ + d@ + e@,
{
    let mut s = cat4(a, b, c, d);
    s.append(e);
    s
}

/// Seven texts in a row.
pub fn cat7(a: &str, b: &str, c: &str, d: &str, e: &str, f: &str, g: &str) -> (r: String)
    ensures
        r@ == a@ + b@ + c@ + d@ + e@ + f@ + g@,
{
    let mut s = cat5(a, b, c, d, e);
    s.append(f);
    s.append(g);
    s
}

// ---------------------------------------------------------------- order

/// Whether `a` comes before `b` in the order of code points.
pub fn precedes(a: &str, b: &str) -> (r: bool)
    ensures
        r == text_lt(a@, b@),
{
    let v = chars_of(a);
    let w = chars_of(b);
    let mut i: usize = 0;
    assert(v@.skip(0) =~= v@);
    assert(w@.skip(0) =~= w@);
    while i < v.len() && i < w.len() && v[i] == w[i]
        invariant
            i <= v@.len(),
            i <= w@.len(),
            v@ == a@,
            w@ == b@,
            text_lt(a@, b@) == text_lt(v@.skip(i as int), w@.skip(i as int)),
        decreases v@.len() - i,
    {
        assert(v@.skip(i as int).skip(1) =~= v@.skip(i + 1));
        assert(w@.skip(i as int).skip(1) =~= w@.skip(i + 1));
        i += 1;
    }
    if i >= w.len() {
        false
    } else if i >= v.len() {
        true
    } else {
        v[i] < w[i]
    }
}

// ---------------------------------------------------------------- laws

/// All of these are whitespace.
pub open spec fn blank(s: Seq<char>) -> bool {
    forall|i: int| 0 <= i < s.len() ==> is_space(#[trigger] s[i])
}

/// All of these are in a set.
pub open spec fn only_of(s: Seq<char>, set: Seq<char>) -> bool {
    forall|i: int| 0 <= i < s.len() ==> set.contains(#[trigger] s[i])
}

proof fn trim_start_drops(a: Seq<char>, s: Seq<char>)
    requires
        blank(a),
    ensures
        trim_start(a + s) == trim_start(s),
    decreases a.len(),
{
    if a.len() == 0 {
        assert(a + s =~= s);
    } else {
        assert((a + s)[0] == a[0]);
        assert((a + s).skip(1) =~= a.skip(1) + s);
        trim_start_drops(a.skip(1), s);
    }
}

/// Whitespace at the end is taken off, however much of it there is.
pub proof fn trim_end_drops(s: Seq<char>, b: Seq<char>)
    requires
        blank(b),
    ensures
        trim_end(s + b) == trim_end(s),
    decreases b.len(),
{
    let t = s + b;
    if b.len() == 0 {
        assert(t =~= s);
    } else {
        assert(t[t.len() - 1] == b[b.len() - 1]);
        assert(t.take(t.len() - 1) =~= s + b.take(b.len() - 1));
        trim_end_drops(s, b.take(b.len() - 1));
    }
}

/// Trimming takes off the whitespace at both ends, all of it and nothing else: what begins
/// and ends with something else comes out as it stands.
pub proof fn trimming_bares(a: Seq<char>, s: Seq<char>, b: Seq<char>)
    requires
        blank(a),
        blank(b),
        s.len() > 0 ==> !is_space(s[0]) && !is_space(s.last()),
    ensures
        trim(a + s + b) == s,
{
    if s.len() == 0 {
        assert(a + s + b =~= a + b);
        trim_start_drops(a, b);
        trim_start_cuts(b);
        if trim_start(b).len() > 0 {
            let k = b.len() - trim_start(b).len();
            assert(trim_start(b)[0] == b[k]);
        }
        assert(trim(a + s + b) =~= s);
    } else {
        assert(a + s + b =~= a + (s + b));
        trim_start_drops(a, s + b);
        assert((s + b)[0] == s[0]);
        trim_end_drops(s, b);
    }
}

/// The characters of a set are taken off one end, all of them and nothing else.
pub proof fn stripping_bares(s: Seq<char>, a: Seq<char>, set: Seq<char>)
    requires
        only_of(a, set),
    ensures
        (s.len() > 0 ==> !set.contains(s.last())) ==> strip_end(s + a, set) == s,
        (s.len() > 0 ==> !set.contains(s[0])) ==> strip_start(a + s, set) == s,
    decreases a.len(),
{
    if a.len() == 0 {
        assert(s + a =~= s);
        assert(a + s =~= s);
    } else {
        let t = s + a;
        let d = a.take(a.len() - 1);
        assert(t[t.len() - 1] == a[a.len() - 1]);
        assert(t.take(t.len() - 1) =~= s + d);
        stripping_bares(s, d, set);
        let u = a + s;
        assert(u[0] == a[0]);
        assert(u.skip(1) =~= a.skip(1) + s);
        stripping_bares(s, a.skip(1), set);
    }
}

proof fn word_len_stays(a: Seq<char>, c: char, b: Seq<char>)
    requires
        is_space(c),
    ensures
        word_len(a + seq![c] + b) == word_len(a),
    decreases a.len(),
{
    let s = a + seq![c] + b;
    if a.len() == 0 {
        assert(s[0] == c);
    } else {
        assert(s[0] == a[0]);
        assert(s.skip(1) =~= a.skip(1) + seq![c] + b);
        word_len_stays(a.skip(1), c, b);
    }
}

/// Whitespace parts words and is in none: those on its two sides are read on their own.
pub proof fn words_on_both_sides(a: Seq<char>, c: char, b: Seq<char>)
    requires
        is_space(c),
    ensures
        words(a + seq![c] + b) == words(a) + words(b),
    decreases a.len(),
{
    let s = a + seq![c] + b;
    if a.len() == 0 {
        assert(s[0] == c);
        assert(s.skip(1) =~= b);
        assert(words(a) + words(b) =~= words(b));
    } else if is_space(a[0]) {
        assert(s[0] == a[0]);
        assert(s.skip(1) =~= a.skip(1) + seq![c] + b);
        words_on_both_sides(a.skip(1), c, b);
    } else {
        assert(s[0] == a[0]);
        word_len_stays(a, c, b);
        word_len_bound(a);
        let n = word_len(a) as int;
        assert(s.take(n) =~= a.take(n));
        assert(s.skip(n) =~= a.skip(n) + seq![c] + b);
        words_on_both_sides(a.skip(n), c, b);
        assert(words(s) =~= words(a) + words(b));
    }
}

/// What holds no whitespace is one word.
pub proof fn one_word(w: Seq<char>)
    requires
        w.len() > 0,
        forall|i: int| 0 <= i < w.len() ==> !is_space(#[trigger] w[i]),
    ensures
        words(w) == seq![w],
{
    word_before(w, seq![]);
    assert(w + Seq::<char>::empty() =~= w);
    let n = w.len() as int;
    assert(!is_space(w[0]));
    assert(w.take(n) =~= w);
    assert(words(w.skip(n)) =~= seq![]);
    assert(words(w) =~= seq![w]);
}

/// The pieces of a text, put in a row with what parted them, are the text; and in no piece
/// but the last does the separator stand any more, nor in that.
pub proof fn pieces_make_the_whole(s: Seq<char>, sep: Seq<char>)
    requires
        sep.len() > 0,
    ensures
        join(split(s, sep), sep) == s,
        split(s, sep).len() > 0,
        forall|k: int| 0 <= k < split(s, sep).len() ==> !contains(#[trigger] split(s, sep)[k], sep),
    decreases s.len(),
{
    find_from_is_first(s, sep, 0);
    contains_iff_found(s, sep);
    let r = split(s, sep);
    if let Some(i) = find(s, sep) {
        let rest = s.skip(i + sep.len());
        let q = split(rest, sep);
        pieces_make_the_whole(rest, sep);
        assert(r.skip(1) =~= q);
        join_from_front(r, sep);
        assert(s.subrange(i, i + sep.len()) == sep);
        assert(s =~= s.take(i) + sep + rest);
        assert forall|k: int| 0 <= k < r.len() implies !contains(#[trigger] r[k], sep) by {
            if k > 0 {
                assert(r[k] == q[k - 1]);
            } else if contains(r[0], sep) {
                let j = choose|j: int| occurs_at(r[0], sep, j);
                assert(s.subrange(j, j + sep.len()) =~= r[0].subrange(j, j + sep.len()));
                assert(occurs_at(s, sep, j));
            }
        }
    }
}

/// Of two texts that begin alike the one with the lesser next character comes first; one
/// that the other goes on from comes before it.
pub proof fn texts_are_ordered(p: Seq<char>, x: char, a: Seq<char>, y: char, b: Seq<char>)
    ensures
        x < y ==> text_lt(p + seq![x] + a, p + seq![y] + b),
        text_lt(p, p + seq![x] + a),
    decreases p.len(),
{
    let (s, t) = (p + seq![x] + a, p + seq![y] + b);
    if p.len() > 0 {
        texts_are_ordered(p.skip(1), x, a, y, b);
        assert(s.skip(1) =~= p.skip(1) + seq![x] + a);
        assert(t.skip(1) =~= p.skip(1) + seq![y] + b);
        assert(s[0] == p[0] && t[0] == p[0]);
    } else {
        assert(s[0] == x && t[0] == y);
    }
}

/// A text begins with what it was put behind, ends with what was put behind it, and holds
/// what stands in its middle; and what it begins or ends with is a part of it.
pub proof fn parts_are_seen(a: Seq<char>, p: Seq<char>, b: Seq<char>)
    ensures
        starts(p + b, p),
        ends(a + p, p),
        contains(a + p + b, p),
        starts(a, p) ==> a == p + a.skip(p.len() as int),
        ends(a, p) ==> a == a.take(a.len() - p.len()) + p,
{
    assert((p + b).subrange(0, p.len() as int) =~= p);
    assert((a + p).subrange(a.len() as int, (a + p).len() as int) =~= p);
    let n = a.len() as int;
    assert((a + p + b).subrange(n, n + p.len()) =~= p);
    assert(occurs_at(a + p + b, p, n));
    if starts(a, p) {
        assert(a.subrange(0, p.len() as int) == p);
        assert(a =~= p + a.skip(p.len() as int));
    }
    if ends(a, p) {
        let k = a.len() - p.len();
        assert(a.subrange(k, k + p.len()) == p);
        assert(a =~= a.take(k) + p);
    }
}

/// The piece between the first two occurrences of a character is the second one.
pub proof fn piece_between(a: Seq<char>, c: char, m: Seq<char>, b: Seq<char>)
    requires
        !a.contains(c),
        !m.contains(c),
    ensures
        second_piece(a + seq![c] + m, seq![c]) == Some(m),
        second_piece(a + seq![c] + (m + seq![c] + b), seq![c]) == Some(m),
        split_once(a + seq![c] + b, seq![c]) == Some((a, b)),
{
    found_behind(a, c, m);
    found_behind(a, c, m + seq![c] + b);
    found_behind(a, c, b);
    split_behind(m, c, b);
    not_found(m, c);
}

/// The first characters of a text are as many as are asked for, as far as it goes, and they
/// are those it begins with.
pub proof fn first_ones(s: Seq<char>, n: nat)
    ensures
        first(s, n).len() <= n,
        first(s, n).len() == n || first(s, n) == s,
        forall|i: int| 0 <= i < first(s, n).len() ==> #[trigger] first(s, n)[i] == s[i],
{
}

/// What is all ASCII without a capital letter is its own lowercase.
pub proof fn lowercase_stays(s: Seq<char>)
    requires
        forall|i: int|
            0 <= i < s.len() ==> (#[trigger] s[i] as u32) < 128 && !('A' <= s[i] <= 'Z'),
    ensures
        lowered(s) == s,
{
    assert(s.map_values(|c: char| ascii_lower(c)) =~= s);
}

/// A capital letter of ASCII becomes the small letter of the same place in the alphabet, and
/// every other character of ASCII stays.
pub proof fn capitals_become_small(s: Seq<char>, i: int)
    requires
        is_ascii_chars(s),
        0 <= i < s.len(),
    ensures
        lowered(s).len() == s.len(),
        'A' <= s[i] <= 'Z' ==> lowered(s)[i] as u32 - 'a' as u32 == s[i] as u32 - 'A' as u32,
        !('A' <= s[i] <= 'Z') ==> lowered(s)[i] == s[i],
{
    small_letter(s[i]);
}

proof fn small_letter(c: char)
    ensures
        'A' <= c <= 'Z' ==> ascii_lower(c) as u32 == c as u32 + 32,
{
}

/// The line end that closes a head, followed by another.
pub open spec fn blank_line() -> Seq<char> {
    seq!['\r', '\n', '\r', '\n']
}

/// What follows a text without its first character is found there.
pub proof fn found_there(l: Seq<char>, p: Seq<char>, body: Seq<char>)
    requires
        p.len() > 0,
        !l.contains(p[0]),
    ensures
        find(l + p + body, p) == Some(l.len() as int),
{
    let s = l + p + body;
    let n = l.len() as int;
    assert(s.subrange(n, n + p.len()) =~= p);
    assert(occurs_at(s, p, n));
    find_from_is_first(s, p, 0);
    let k = find(s, p)->0;
    assert(k <= n);
    if k < n {
        assert(s.subrange(k, k + p.len())[0] == s[k]);
        assert(s[k] == l[k]);
        assert(l[k] == p[0]);
        assert(false);
    }
}

/// A head of one line ends where its blank line stands.
pub proof fn head_ends_behind(l: Seq<char>, body: Seq<char>)
    requires
        !l.contains('\r'),
    ensures
        find(l + blank_line() + body, blank_line()) == Some(l.len() as int),
{
    assert(blank_line()[0] == '\r');
    found_there(l, blank_line(), body);
}

/// A line of a head before others does not end it: the head ends where the others end.
pub proof fn head_goes_on(l: Seq<char>, rest: Seq<char>, n: int)
    requires
        !l.contains('\r'),
        rest.len() > 0,
        rest[0] != '\r',
        find(rest, blank_line()) == Some(n),
    ensures
        find(l + seq!['\r', '\n'] + rest, blank_line()) == Some(l.len() + 2 + n),
{
    let p = blank_line();
    let s = l + seq!['\r', '\n'] + rest;
    let m = l.len() as int;
    find_from_is_first(rest, p, 0);
    find_from_is_first(s, p, 0);
    assert(s.subrange(m + 2 + n, m + 2 + n + 4) =~= rest.subrange(n, n + 4));
    assert(occurs_at(s, p, m + 2 + n));
    let k = find(s, p)->0;
    if k < m + 2 + n {
        let t = s.subrange(k, k + 4);
        assert(t[0] == s[k] && t[1] == s[k + 1] && t[2] == s[k + 2]);
        if k < m {
            assert(l[k] == '\r');
        } else if k == m {
            assert(s[k + 2] == rest[0]);
        } else if k == m + 1 {
            assert(s[k] == '\n');
        } else {
            assert(rest.subrange(k - m - 2, k - m - 2 + 4) =~= t);
            assert(occurs_at(rest, p, k - m - 2));
        }
    }
}

/// The first line of a text is what stands before its first line end.
pub proof fn first_line_is_read(l: Seq<char>, rest: Seq<char>)
    requires
        !l.contains('\n'),
        !l.contains('\r'),
    ensures
        lines(l + seq!['\r', '\n'] + rest).len() > 0,
        lines(l + seq!['\r', '\n'] + rest)[0] == l,
{
    let a = l + seq!['\r'];
    let s = l + seq!['\r', '\n'] + rest;
    assert(s =~= a + seq!['\n'] + rest);
    assert(!a.contains('\n'));
    found_behind(a, '\n', rest);
    assert(s.take(a.len() as int) =~= a);
    assert(strip_cr(a) =~= l);
}

/// A text is read line by line: what stands before its first line end is a line, and what
/// stands behind it is read on its own.
pub proof fn lines_are_read_in_a_row(l: Seq<char>, rest: Seq<char>)
    requires
        !l.contains('\n'),
        !l.contains('\r'),
    ensures
        lines(l + seq!['\n'] + rest) == seq![l] + lines(rest),
        lines(l + seq!['\r', '\n'] + rest) == seq![l] + lines(rest),
        l.len() > 0 ==> lines(l) == seq![l],
{
    found_behind(l, '\n', rest);
    let a = l + seq!['\r'];
    let s = l + seq!['\r', '\n'] + rest;
    assert(s =~= a + seq!['\n'] + rest);
    assert(!a.contains('\n'));
    found_behind(a, '\n', rest);
    assert(strip_cr(a) =~= l);
    not_found(l, '\n');
    assert(strip_cr(l) == l) by {
        if l.len() > 0 {
            assert(l.contains(l[l.len() - 1]));
        }
    }
}

/// Every place at which a text stands is replaced, from the left on.
pub proof fn replaced_one_by_one(a: Seq<char>, p: Seq<char>, b: Seq<char>, to: Seq<char>)
    requires
        p.len() > 0,
        !a.contains(p[0]),
    ensures
        replace(a + p + b, p, to) == a + to + replace(b, p, to),
        replace(a, p, to) == a,
{
    let s = a + p + b;
    let n = a.len() as int;
    found_there(a, p, b);
    assert(s.take(n) =~= a);
    assert(s.skip(n + p.len()) =~= b);
    pieces_make_the_whole(b, p);
    let parts = split(s, p);
    assert(parts == seq![a] + split(b, p));
    assert(parts.skip(1) =~= split(b, p));
    join_from_front(parts, to);
    find_from_is_first(a, p, 0);
    if let Some(k) = find(a, p) {
        assert(a.subrange(k, k + p.len())[0] == a[k]);
        assert(a.contains(p[0]));
    }
    assert(split(a, p) =~= seq![a]);
}

} // verus!
