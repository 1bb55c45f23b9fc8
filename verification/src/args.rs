//! Arguments of a subcommand: options that take a value, and words.
use vstd::prelude::*;
use crate::num::{dec, dec_round_trip, other_texts_are_no_numbers, read_u64, uint_of};
use crate::text::{
    begins, not_found, pieces, same, split, split_behind, starts, texts, trim, trimmed,
};

verus! {

// ---------------------------------------------------------------- models

/// The texts of a sequence of names.
pub open spec fn names(v: Seq<&str>) -> Seq<Seq<char>> {
    v.map_values(|s: &str| s@)
}

/// The options among the arguments with their values, in order: an argument that
/// is one of `valued` takes the argument after it. One at the end has no value
/// and is dropped.
pub open spec fn options(args: Seq<Seq<char>>, valued: Seq<Seq<char>>) -> Seq<
    (Seq<char>, Seq<char>),
>
    decreases args.len(),
{
    if args.len() == 0 {
        seq![]
    } else if !valued.contains(args[0]) {
        options(args.skip(1), valued)
    } else if args.len() == 1 {
        seq![]
    } else {
        seq![(args[0], args[1])] + options(args.skip(2), valued)
    }
}

/// The arguments that are neither one of `valued` nor its value, in order.
pub open spec fn plain_words(args: Seq<Seq<char>>, valued: Seq<Seq<char>>) -> Seq<Seq<char>>
    decreases args.len(),
{
    if args.len() == 0 {
        seq![]
    } else if !valued.contains(args[0]) {
        seq![args[0]] + plain_words(args.skip(1), valued)
    } else if args.len() == 1 {
        seq![]
    } else {
        plain_words(args.skip(2), valued)
    }
}

/// The value of the last option with one of the names `a` and `b`.
pub open spec fn last_of(o: Seq<(Seq<char>, Seq<char>)>, a: Seq<char>, b: Seq<char>) -> Option<
    (Seq<char>, Seq<char>),
>
    decreases o.len(),
{
    if o.len() == 0 {
        None
    } else if o.last().0 == a || o.last().0 == b {
        Some(o.last())
    } else {
        last_of(o.drop_last(), a, b)
    }
}

/// The value of the last option named `name`.
pub open spec fn last_value(o: Seq<(Seq<char>, Seq<char>)>, name: Seq<char>) -> Option<Seq<char>> {
    match last_of(o, name, name) {
        Some(p) => Some(p.1),
        None => None,
    }
}

/// The value of the last option named `name`, or `d`.
pub open spec fn value_or(
    o: Seq<(Seq<char>, Seq<char>)>,
    name: Seq<char>,
    d: Seq<char>,
) -> Seq<char> {
    match last_value(o, name) {
        Some(v) => v,
        None => d,
    }
}

/// The number that a value writes, or `d`.
pub open spec fn number_or(v: Option<Seq<char>>, d: u64) -> nat {
    match v {
        None => d as nat,
        Some(s) => match uint_of(s, false, u64::MAX as nat) {
            Some(n) => n,
            None => d as nat,
        },
    }
}

/// The last word that is one of `choices`.
pub open spec fn last_word(w: Seq<Seq<char>>, choices: Seq<Seq<char>>) -> Option<Seq<char>>
    decreases w.len(),
{
    if w.len() == 0 {
        None
    } else if choices.contains(w.last()) {
        Some(w.last())
    } else {
        last_word(w.drop_last(), choices)
    }
}

/// A word that does not begin with a hyphen.
pub open spec fn positional(s: Seq<char>) -> bool {
    !starts(s, seq!['-'])
}

/// The words that do not begin with a hyphen, in order.
pub open spec fn positionals(w: Seq<Seq<char>>) -> Seq<Seq<char>>
    decreases w.len(),
{
    if w.len() == 0 {
        seq![]
    } else if positional(w.last()) {
        positionals(w.drop_last()).push(w.last())
    } else {
        positionals(w.drop_last())
    }
}

/// The first text of `w` that is not empty.
pub open spec fn first_filled(w: Seq<Seq<char>>) -> Option<Seq<char>>
    decreases w.len(),
{
    if w.len() == 0 {
        None
    } else if w[0].len() > 0 {
        Some(w[0])
    } else {
        first_filled(w.skip(1))
    }
}

// ---------------------------------------------------------------- reading

/// Arguments taken apart into options and words.
pub struct ArgList {
    pub options: Vec<(String, String)>,
    pub words: Vec<String>,
}

/// The names and values of a sequence of options.
pub open spec fn option_views(o: Seq<(String, String)>) -> Seq<(Seq<char>, Seq<char>)> {
    o.map_values(|p: (String, String)| (p.0@, p.1@))
}

impl ArgList {
    /// The options as texts.
    pub open spec fn opts(&self) -> Seq<(Seq<char>, Seq<char>)> {
        option_views(self.options@)
    }

    /// The words as texts.
    pub open spec fn plain(&self) -> Seq<Seq<char>> {
        texts(self.words@)
    }
}

fn is_one_of(s: &str, list: &[&str]) -> (r: bool)
    ensures
        r == names(list@).contains(s@),
{
    let mut i: usize = 0;
    while i < list.len()
        invariant
            i <= list@.len(),
            forall|j: int| 0 <= j < i ==> names(list@)[j] != s@,
        decreases list@.len() - i,
    {
        if same(list[i], s) {
            assert(names(list@)[i as int] == s@);
            return true;
        }
        i += 1;
    }
    false
}

/// Takes the arguments apart; the options named in `valued` take a value.
pub fn read_args(args: &[String], valued: &[&str]) -> (r: ArgList)
    ensures
        r.opts() == options(texts(args@), names(valued@)),
        r.plain() == plain_words(texts(args@), names(valued@)),
{
    let mut o: Vec<(String, String)> = Vec::new();
    let mut w: Vec<String> = Vec::new();
    let mut i: usize = 0;
    let ghost a = texts(args@);
    let ghost n = names(valued@);
    let k: usize = args.len();
    assert(a.skip(0) =~= a);
    assert(option_views(o@) + options(a, n) =~= options(a, n));
    assert(texts(w@) + plain_words(a, n) =~= plain_words(a, n));
    while i < k
        invariant
            i <= k == args@.len(),
            a == texts(args@),
            n == names(valued@),
            options(a, n) == option_views(o@) + options(a.skip(i as int), n),
            plain_words(a, n) == texts(w@) + plain_words(a.skip(i as int), n),
        decreases k - i,
    {
        let ghost rest = a.skip(i as int);
        assert(rest[0] == args@[i as int]@);
        if is_one_of(args[i].as_str(), valued) {
            if k - i == 1 {
                assert(rest.len() == 1);
                assert(option_views(o@) + seq![] =~= option_views(o@));
                assert(texts(w@) + seq![] =~= texts(w@));
                return ArgList { options: o, words: w };
            }
            assert(rest[1] == args@[i + 1]@);
            let ghost prev = o@;
            o.push((args[i].clone(), args[i + 1].clone()));
            proof {
                assert(rest.skip(2) =~= a.skip(i + 2));
                assert(option_views(o@) =~= option_views(prev).push((rest[0], rest[1])));
                assert(option_views(prev) + (seq![(rest[0], rest[1])] + options(a.skip(i + 2), n))
                    =~= option_views(o@) + options(a.skip(i + 2), n));
            }
            i += 2;
        } else {
            let ghost prev = w@;
            w.push(args[i].clone());
            proof {
                assert(rest.skip(1) =~= a.skip(i + 1));
                assert(texts(w@) =~= texts(prev).push(rest[0]));
                assert(texts(prev) + (seq![rest[0]] + plain_words(a.skip(i + 1), n)) =~= texts(w@)
                    + plain_words(a.skip(i + 1), n));
            }
            i += 1;
        }
    }
    assert(option_views(o@) + options(a.skip(i as int), n) =~= option_views(o@));
    assert(texts(w@) + plain_words(a.skip(i as int), n) =~= texts(w@));
    ArgList { options: o, words: w }
}

impl ArgList {
    /// The last option with one of two names, by its name and its value.
    pub fn last_of(&self, a: &str, b: &str) -> (r: Option<(String, String)>)
        ensures
            match r {
                Some(p) => last_of(self.opts(), a@, b@) == Some((p.0@, p.1@)),
                None => last_of(self.opts(), a@, b@) is None,
            },
    {
        let mut i: usize = self.options.len();
        let ghost o = self.opts();
        assert(o.take(i as int) =~= o);
        while i > 0
            invariant
                i <= self.options@.len(),
                o == self.opts(),
                last_of(o, a@, b@) == last_of(o.take(i as int), a@, b@),
            decreases i,
        {
            proof {
                assert(o.take(i as int).last() == o[i - 1]);
                assert(o.take(i as int).drop_last() =~= o.take(i - 1));
            }
            let p = &self.options[i - 1];
            if same(p.0.as_str(), a) || same(p.0.as_str(), b) {
                return Some((p.0.clone(), p.1.clone()));
            }
            i -= 1;
        }
        None
    }

    /// The value of the last option named `name`.
    pub fn value(&self, name: &str) -> (r: Option<String>)
        ensures
            match r {
                Some(v) => last_value(self.opts(), name@) == Some(v@),
                None => last_value(self.opts(), name@) is None,
            },
    {
        match self.last_of(name, name) {
            Some((_, v)) => Some(v),
            None => None,
        }
    }

    /// The value of the last option named `name`, or `d`.
    pub fn value_or(&self, name: &str, d: &str) -> (r: String)
        ensures
            r@ == value_or(self.opts(), name@, d@),
    {
        match self.value(name) {
            Some(v) => v,
            None => d.to_owned(),
        }
    }

    /// The number that the last option named `name` writes, or `d`.
    pub fn number_or(&self, name: &str, d: u64) -> (r: u64)
        ensures
            r == number_or(last_value(self.opts(), name@), d),
    {
        match self.value(name) {
            Some(v) => match read_u64(v.as_str()) {
                Some(n) => n,
                None => d,
            },
            None => d,
        }
    }

    /// Whether `w` is among the words.
    pub fn has(&self, w: &str) -> (r: bool)
        ensures
            r == self.plain().contains(w@),
    {
        crate::text::among(w, &self.words)
    }

    /// The last word that is one of `choices`.
    pub fn last_word(&self, choices: &[&str]) -> (r: Option<String>)
        ensures
            match r {
                Some(v) => last_word(self.plain(), names(choices@)) == Some(v@),
                None => last_word(self.plain(), names(choices@)) is None,
            },
    {
        let mut i: usize = self.words.len();
        let ghost w = self.plain();
        assert(w.take(i as int) =~= w);
        while i > 0
            invariant
                i <= self.words@.len(),
                w == self.plain(),
                last_word(w, names(choices@)) == last_word(w.take(i as int), names(choices@)),
            decreases i,
        {
            proof {
                assert(w.take(i as int).last() == w[i - 1]);
                assert(w.take(i as int).drop_last() =~= w.take(i - 1));
            }
            if is_one_of(self.words[i - 1].as_str(), choices) {
                return Some(self.words[i - 1].clone());
            }
            i -= 1;
        }
        None
    }

    /// The words that do not begin with a hyphen.
    pub fn positionals(&self) -> (r: Vec<String>)
        ensures
            texts(r@) == positionals(self.plain()),
    {
        let mut out: Vec<String> = Vec::new();
        let mut i: usize = 0;
        let ghost w = self.plain();
        proof {
            reveal_strlit("-");
            assert("-"@ =~= seq!['-']);
        }
        assert(w.take(0) =~= seq![]);
        assert(texts(out@) =~= seq![]);
        while i < self.words.len()
            invariant
                i <= self.words@.len(),
                w == self.plain(),
                "-"@ == seq!['-'],
                texts(out@) == positionals(w.take(i as int)),
            decreases self.words@.len() - i,
        {
            proof {
                assert(w.take(i + 1).drop_last() =~= w.take(i as int));
                assert(w.take(i + 1).last() == w[i as int]);
            }
            if !begins(self.words[i].as_str(), "-") {
                let ghost prev = out@;
                out.push(self.words[i].clone());
                assert(texts(out@) =~= texts(prev).push(w[i as int]));
            }
            i += 1;
        }
        assert(w.take(i as int) =~= w);
        out
    }
}

/// The first string that is not empty.
pub fn first_nonempty(v: &Vec<String>) -> (r: Option<String>)
    ensures
        match r {
            Some(s) => first_filled(texts(v@)) == Some(s@),
            None => first_filled(texts(v@)) is None,
        },
{
    let mut i: usize = 0;
    let ghost w = texts(v@);
    assert(w.skip(0) =~= w);
    while i < v.len()
        invariant
            i <= v@.len(),
            w == texts(v@),
            first_filled(w) == first_filled(w.skip(i as int)),
        decreases v@.len() - i,
    {
        assert(w.skip(i as int)[0] == v@[i as int]@);
        if !v[i].as_str().is_empty() {
            return Some(v[i].clone());
        }
        assert(w.skip(i as int).skip(1) =~= w.skip(i + 1));
        i += 1;
    }
    None
}

/// The parts without whitespace around them, and without the empty ones.
pub open spec fn filled(parts: Seq<Seq<char>>) -> Seq<Seq<char>>
    decreases parts.len(),
{
    if parts.len() == 0 {
        seq![]
    } else if trim(parts.last()).len() > 0 {
        filled(parts.drop_last()).push(trim(parts.last()))
    } else {
        filled(parts.drop_last())
    }
}

/// The parts between commas, without whitespace around them, and without the empty
/// ones.
pub open spec fn comma_list(s: Seq<char>) -> Seq<Seq<char>> {
    filled(split(s, ","@))
}

/// The parts between commas.
pub fn read_list(s: &str) -> (r: Vec<String>)
    ensures
        texts(r@) == comma_list(s@),
{
    let parts = pieces(s, ",");
    let ghost t = texts(parts@);
    let mut out: Vec<String> = Vec::new();
    let mut i: usize = 0;
    assert(t.take(0) =~= seq![]);
    assert(texts(out@) =~= seq![]);
    while i < parts.len()
        invariant
            i <= parts@.len(),
            t == texts(parts@),
            texts(out@) == filled(t.take(i as int)),
        decreases parts@.len() - i,
    {
        proof {
            assert(t.take(i + 1).drop_last() =~= t.take(i as int));
            assert(t.take(i + 1).last() == parts@[i as int]@);
        }
        let p = trimmed(parts[i].as_str());
        if !p.as_str().is_empty() {
            let ghost prev = out@;
            let ghost pv = p@;
            out.push(p);
            assert(texts(out@) =~= texts(prev).push(pv));
        }
        i += 1;
    }
    assert(t.take(i as int) =~= t);
    out
}

// ---------------------------------------------------------------- laws

/// None of these is an option that takes a value.
pub open spec fn all_plain(w: Seq<Seq<char>>, valued: Seq<Seq<char>>) -> bool {
    forall|i: int| 0 <= i < w.len() ==> !valued.contains(#[trigger] w[i])
}

proof fn plain_ones_pass(a: Seq<Seq<char>>, b: Seq<Seq<char>>, valued: Seq<Seq<char>>)
    requires
        all_plain(a, valued),
    ensures
        options(a + b, valued) == options(b, valued),
        plain_words(a + b, valued) == a + plain_words(b, valued),
    decreases a.len(),
{
    let s = a + b;
    if a.len() == 0 {
        assert(s =~= b);
        assert(a + plain_words(b, valued) =~= plain_words(b, valued));
    } else {
        assert(s[0] == a[0]);
        assert(s.skip(1) =~= a.skip(1) + b);
        plain_ones_pass(a.skip(1), b, valued);
        assert(plain_words(s, valued) =~= a + plain_words(b, valued));
    }
}

/// An option takes the argument behind it, whatever that is, and what stands around the two
/// are words. Of an option that is given twice the later value counts, and a name that is
/// not given has none.
pub proof fn later_value_counts(
    before: Seq<Seq<char>>,
    name: Seq<char>,
    first: Seq<char>,
    between: Seq<Seq<char>>,
    second: Seq<char>,
    behind: Seq<Seq<char>>,
    other: Seq<char>,
    valued: Seq<Seq<char>>,
)
    requires
        valued.contains(name),
        other != name,
        all_plain(before, valued),
        all_plain(between, valued),
        all_plain(behind, valued),
    ensures
        ({
            let once = before + seq![name, first] + behind;
            let twice = before + seq![name, first] + between + seq![name, second] + behind;
            &&& last_value(options(once, valued), name) == Some(first)
            &&& plain_words(once, valued) == before + behind
            &&& last_value(options(twice, valued), name) == Some(second)
            &&& plain_words(twice, valued) == before + between + behind
            &&& last_value(options(twice, valued), other) is None
            &&& last_value(options(before, valued), name) is None
        }),
{
    let once = before + seq![name, first] + behind;
    let twice = before + seq![name, first] + between + seq![name, second] + behind;
    let e = Seq::<Seq<char>>::empty();
    plain_ones_pass(before, e, valued);
    plain_ones_pass(behind, e, valued);
    assert(before + e =~= before);
    assert(behind + e =~= behind);
    let r = seq![name, first] + behind;
    assert(once =~= before + r);
    plain_ones_pass(before, r, valued);
    assert(r.skip(2) =~= behind);
    assert(options(r, valued) =~= seq![(name, first)]);
    assert(plain_words(r, valued) =~= behind);
    let q = seq![name, second] + behind;
    assert(q.skip(2) =~= behind);
    assert(options(q, valued) =~= seq![(name, second)]);
    assert(plain_words(q, valued) =~= behind);
    plain_ones_pass(between, q, valued);
    let t = seq![name, first] + (between + q);
    assert(t.skip(2) =~= between + q);
    assert(twice =~= before + t);
    plain_ones_pass(before, t, valued);
    assert(options(t, valued) =~= seq![(name, first), (name, second)]);
    assert(plain_words(t, valued) =~= between + behind);
    assert(before + (between + behind) =~= before + between + behind);
    let o = seq![(name, first), (name, second)];
    assert(o.drop_last() =~= seq![(name, first)]);
    assert(o.drop_last().drop_last() =~= seq![]);
    reveal_with_fuel(last_of, 3);
}

/// A number that is written out is taken as it is; where none is given, or what is given is
/// none, the other one is.
pub proof fn numbers_are_taken(n: nat, d: u64, s: Seq<char>, i: int)
    requires
        n <= u64::MAX,
        0 <= i < s.len(),
        !('0' <= s[i] <= '9'),
        i > 0 || s[i] != '+',
    ensures
        number_or(Some(dec(n)), d) == n,
        number_or(Some(s), d) == d,
        number_or(None, d) == d,
{
    dec_round_trip(n, u64::MAX as nat);
    other_texts_are_no_numbers(s, i, u64::MAX as nat);
}

/// The words without a hyphen before them, in their order: each is kept, and nothing else.
pub proof fn hyphens_are_left(w: Seq<Seq<char>>, x: Seq<char>)
    ensures
        positionals(w.push(x)) == if x.len() > 0 && x[0] == '-' {
            positionals(w)
        } else {
            positionals(w).push(x)
        },
        positionals(seq![]).len() == 0,
{
    assert(w.push(x).drop_last() =~= w);
    if x.len() > 0 {
        assert(x.subrange(0, 1) =~= seq![x[0]]);
        assert(seq![x[0]][0] == x[0] && seq!['-'][0] == '-');
    }
}

/// The first text that is not empty is given, whatever follows it.
pub proof fn first_one_is_given(empty: Seq<Seq<char>>, x: Seq<char>, rest: Seq<Seq<char>>)
    requires
        forall|i: int| 0 <= i < empty.len() ==> (#[trigger] empty[i]).len() == 0,
        x.len() > 0,
    ensures
        first_filled(empty + seq![x] + rest) == Some(x),
        first_filled(empty) is None,
    decreases empty.len(),
{
    let s = empty + seq![x] + rest;
    if empty.len() > 0 {
        assert(s[0] == empty[0]);
        assert(s.skip(1) =~= empty.skip(1) + seq![x] + rest);
        first_one_is_given(empty.skip(1), x, rest);
    } else {
        assert(s[0] == x);
    }
}

/// Of two words among some choices the later one counts, and a word that is none of them
/// does not.
pub proof fn later_word_counts(
    w: Seq<Seq<char>>,
    x: Seq<char>,
    behind: Seq<Seq<char>>,
    choices: Seq<Seq<char>>,
)
    requires
        choices.contains(x),
        all_plain(behind, choices),
    ensures
        last_word(w + seq![x] + behind, choices) == Some(x),
        last_word(behind, choices) is None,
    decreases behind.len(),
{
    let s = w + seq![x] + behind;
    if behind.len() == 0 {
        assert(s.last() == x);
    } else {
        assert(behind.last() == behind[behind.len() - 1]);
        assert(s.last() == behind.last());
        assert(s.drop_last() =~= w + seq![x] + behind.drop_last());
        later_word_counts(w, x, behind.drop_last(), choices);
    }
}

proof fn filled_in_front(x: Seq<char>, p: Seq<Seq<char>>)
    ensures
        filled(seq![x] + p) == filled(seq![x]) + filled(p),
    decreases p.len(),
{
    let s = seq![x] + p;
    if p.len() == 0 {
        assert(s =~= seq![x]);
        assert(filled(seq![x]) + filled(p) =~= filled(seq![x]));
    } else {
        assert(s.drop_last() =~= seq![x] + p.drop_last());
        filled_in_front(x, p.drop_last());
        assert(filled(s) =~= filled(seq![x]) + filled(p));
    }
}

/// A list is read part by part, from comma to comma: a part is kept without the blanks
/// around it, and one that is blank is left out.
pub proof fn lists_are_read(part: Seq<char>, rest: Seq<char>)
    requires
        !part.contains(','),
    ensures
        comma_list(part + seq![','] + rest) == comma_list(part) + comma_list(rest),
        comma_list(part) == if trim(part).len() > 0 {
            seq![trim(part)]
        } else {
            seq![]
        },
{
    reveal_strlit(",");
    assert(","@ =~= seq![',']);
    split_behind(part, ',', rest);
    not_found(part, ',');
    filled_in_front(part, split(rest, seq![',']));
    assert(seq![part].drop_last() =~= seq![]);
    assert(filled(seq![part].drop_last()) =~= seq![]);
    if trim(part).len() > 0 {
        assert(filled(seq![part]) =~= seq![trim(part)]);
    }
}

} // verus!
