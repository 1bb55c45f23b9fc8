//! Release numbers of packages and the order between them.
use vstd::prelude::*;
use crate::num::{dec, dec_is_plain, dec_round_trip, read_u64, uint_of};
use crate::text::{
    before, cut, find, find_from_is_first, head, is_space, not_found, occurs_at, only_of, pieces,
    same, split, split_behind, split_once, strip_start, stripped_start, stripping_bares, texts,
    trim, trimmed, trimming_bares,
};

verus! {

// ---------------------------------------------------------------- models

/// A release: its numbers, and the number of the candidate where it is only one.
pub ghost struct ReleaseView {
    pub nums: Seq<nat>,
    pub rc: Option<nat>,
}

/// The pieces that write a number of 64 bits.
pub open spec fn numbers(p: Seq<Seq<char>>) -> Seq<nat>
    decreases p.len(),
{
    if p.len() == 0 {
        seq![]
    } else {
        match uint_of(p.last(), false, u64::MAX as nat) {
            Some(n) => numbers(p.drop_last()).push(n),
            None => numbers(p.drop_last()),
        }
    }
}

/// The release that a text like `1.2.3` or `1.2.3-rc.4` writes. A candidate whose number
/// 64 bits do not hold counts as the last one.
pub open spec fn release_of(v: Seq<char>) -> ReleaseView {
    match split_once(v, "-rc."@) {
        Some((core, tail)) => ReleaseView {
            nums: numbers(split(core, "."@)),
            rc: match uint_of(before(tail, "."@), false, u64::MAX as nat) {
                Some(n) => Some(n),
                None => Some(u64::MAX as nat),
            },
        },
        None => ReleaseView { nums: numbers(split(v, "."@)), rc: None },
    }
}

/// The number at place `i`; zero past the end.
pub open spec fn place(nums: Seq<nat>, i: int) -> nat {
    if 0 <= i < nums.len() {
        nums[i]
    } else {
        0
    }
}

/// The first place from `i` on at which two rows of numbers differ.
pub open spec fn first_difference(a: Seq<nat>, b: Seq<nat>, i: int) -> Option<int>
    decreases (if a.len() > b.len() { a.len() } else { b.len() }) - i,
{
    if i >= a.len() && i >= b.len() {
        None
    } else if place(a, i) != place(b, i) {
        Some(i)
    } else {
        first_difference(a, b, i + 1)
    }
}

/// The candidate `a` is `b` or a later one; what is no candidate comes after them all.
pub open spec fn rc_at_least(a: Option<nat>, b: Option<nat>) -> bool {
    match (a, b) {
        (None, _) => true,
        (Some(_), None) => false,
        (Some(x), Some(y)) => x >= y,
    }
}

/// The release `a` is `b` or newer: greater at the first number that differs, or
/// no earlier a candidate where none does.
pub open spec fn at_least(a: ReleaseView, b: ReleaseView) -> bool {
    match first_difference(a.nums, b.nums, 0) {
        Some(i) => place(a.nums, i) > place(b.nums, i),
        None => rc_at_least(a.rc, b.rc),
    }
}

/// The wanted release without the signs of a range.
pub open spec fn bare_want(want: Seq<char>) -> Seq<char> {
    strip_start(strip_start(trim(want), "^~>= "@), "v"@)
}

/// The present release without the signs of a range.
pub open spec fn bare_got(got: Seq<char>) -> Seq<char> {
    strip_start(got, "^~>= v"@)
}

/// A present release satisfies a wanted one: anything is wanted, or one of the two
/// has no numbers, or the present one is the wanted one or newer.
pub open spec fn satisfies(got: Seq<char>, want: Seq<char>) -> bool {
    let w = release_of(bare_want(want));
    let g = release_of(bare_got(got));
    ||| trim(want).len() == 0
    ||| trim(want) == "*"@
    ||| w.nums.len() == 0
    ||| g.nums.len() == 0
    ||| at_least(g, w)
}

// ---------------------------------------------------------------- laws

proof fn difference_is_first(a: Seq<nat>, b: Seq<nat>, i: int)
    requires
        0 <= i,
    ensures
        match first_difference(a, b, i) {
            Some(k) => i <= k && place(a, k) != place(b, k) && forall|j: int|
                i <= j < k ==> place(a, j) == place(b, j),
            None => forall|j: int| i <= j ==> place(a, j) == place(b, j),
        },
    decreases (if a.len() > b.len() { a.len() } else { b.len() }) - i,
{
    if i >= a.len() && i >= b.len() {
    } else if place(a, i) != place(b, i) {
    } else {
        difference_is_first(a, b, i + 1);
    }
}

/// Every release is at least itself.
pub proof fn at_least_reflexive(a: ReleaseView)
    ensures
        at_least(a, a),
{
    difference_is_first(a.nums, a.nums, 0);
}

/// Of two releases one is at least the other.
pub proof fn at_least_total(a: ReleaseView, b: ReleaseView)
    ensures
        at_least(a, b) || at_least(b, a),
{
    difference_is_first(a.nums, b.nums, 0);
    difference_is_first(b.nums, a.nums, 0);
    if let Some(i) = first_difference(a.nums, b.nums, 0) {
        if let Some(j) = first_difference(b.nums, a.nums, 0) {
            assert(i == j) by {
                if i < j {
                    assert(place(b.nums, i) == place(a.nums, i));
                } else if j < i {
                    assert(place(a.nums, j) == place(b.nums, j));
                }
            }
        } else {
            assert(place(b.nums, i) == place(a.nums, i));
        }
    } else if let Some(j) = first_difference(b.nums, a.nums, 0) {
        assert(place(a.nums, j) == place(b.nums, j));
    }
}

/// A release that is at least a second one, which is at least a third one, is at
/// least the third one.
pub proof fn at_least_transitive(a: ReleaseView, b: ReleaseView, c: ReleaseView)
    requires
        at_least(a, b),
        at_least(b, c),
    ensures
        at_least(a, c),
{
    difference_is_first(a.nums, b.nums, 0);
    difference_is_first(b.nums, c.nums, 0);
    difference_is_first(a.nums, c.nums, 0);
    let ab = first_difference(a.nums, b.nums, 0);
    let bc = first_difference(b.nums, c.nums, 0);
    match first_difference(a.nums, c.nums, 0) {
        Some(i) => {
            assert(place(a.nums, i) > place(c.nums, i)) by {
                if let Some(j) = ab {
                    assert(i < j ==> place(a.nums, i) == place(b.nums, i));
                    assert(j < i ==> place(a.nums, j) == place(c.nums, j));
                    if let Some(k) = bc {
                        assert(i < k ==> place(b.nums, i) == place(c.nums, i));
                        assert(j < k ==> place(b.nums, j) == place(c.nums, j));
                        assert(k < j ==> place(a.nums, k) == place(b.nums, k));
                        assert(k < i ==> place(a.nums, k) == place(c.nums, k));
                    } else {
                        assert(place(b.nums, i) == place(c.nums, i));
                        assert(place(b.nums, j) == place(c.nums, j));
                    }
                } else {
                    assert(place(a.nums, i) == place(b.nums, i));
                    if let Some(k) = bc {
                        assert(place(a.nums, k) == place(b.nums, k));
                        assert(i < k ==> place(b.nums, i) == place(c.nums, i));
                        assert(k < i ==> place(a.nums, k) == place(c.nums, k));
                    } else {
                        assert(place(b.nums, i) == place(c.nums, i));
                    }
                }
            }
        },
        None => {
            if let Some(j) = ab {
                assert(place(a.nums, j) == place(c.nums, j));
                if let Some(k) = bc {
                    assert(place(a.nums, k) == place(c.nums, k));
                    assert(j < k ==> place(b.nums, j) == place(c.nums, j));
                    assert(k < j ==> place(a.nums, k) == place(b.nums, k));
                } else {
                    assert(place(b.nums, j) == place(c.nums, j));
                }
            } else if let Some(k) = bc {
                assert(place(a.nums, k) == place(b.nums, k));
                assert(place(a.nums, k) == place(c.nums, k));
            }
        },
    }
}

/// Where a host satisfies a wanted release, a newer host satisfies it too.
pub proof fn newer_host_satisfies(got: Seq<char>, newer: Seq<char>, want: Seq<char>)
    requires
        satisfies(got, want),
        release_of(bare_got(got)).nums.len() > 0,
        at_least(release_of(bare_got(newer)), release_of(bare_got(got))),
    ensures
        satisfies(newer, want),
{
    let w = release_of(bare_want(want));
    let g = release_of(bare_got(got));
    if at_least(g, w) {
        at_least_transitive(release_of(bare_got(newer)), g, w);
    }
}

/// Of two candidates of one release the one with the smaller number is older, and every
/// candidate, whatever its number, is older than the release.
pub proof fn older_candidate(a: ReleaseView, b: ReleaseView)
    requires
        a.nums == b.nums,
        a.rc is Some,
        b.rc is Some ==> a.rc->0 < b.rc->0,
    ensures
        at_least(b, a),
        !at_least(a, b),
{
    difference_is_first(a.nums, b.nums, 0);
}

// ---------------------------------------------------------------- reading

/// A release: its numbers, and the number of the candidate where it is only one.
pub struct Release {
    pub nums: Vec<u64>,
    pub rc: Option<u64>,
}

impl View for Release {
    type V = ReleaseView;

    open spec fn view(&self) -> ReleaseView {
        ReleaseView {
            nums: self.nums@.map_values(|n: u64| n as nat),
            rc: match self.rc {
                Some(n) => Some(n as nat),
                None => None,
            },
        }
    }
}

fn read_numbers(s: &str) -> (r: Vec<u64>)
    ensures
        r@.map_values(|n: u64| n as nat) == numbers(split(s@, "."@)),
{
    let p = pieces(s, ".");
    let mut out: Vec<u64> = Vec::new();
    let mut i: usize = 0;
    let ghost t = texts(p@);
    let ghost f = |n: u64| n as nat;
    assert(t.take(0) =~= seq![]);
    assert(out@.map_values(f) =~= seq![]);
    while i < p.len()
        invariant
            i <= p@.len(),
            t == texts(p@),
            f == |n: u64| n as nat,
            out@.map_values(f) == numbers(t.take(i as int)),
        decreases p@.len() - i,
    {
        proof {
            assert(t.take(i + 1).drop_last() =~= t.take(i as int));
            assert(t.take(i + 1).last() == p@[i as int]@);
        }
        if let Some(n) = read_u64(p[i].as_str()) {
            let ghost prev = out@;
            out.push(n);
            assert(out@.map_values(f) =~= prev.map_values(f).push(n as nat));
        }
        i += 1;
    }
    assert(t.take(i as int) =~= t);
    out
}

/// The release that a text writes.
pub fn read_release(v: &str) -> (r: Release)
    ensures
        r@ == release_of(v@),
{
    match cut(v, "-rc.") {
        Some((core, tail)) => {
            let rc: u64 = match read_u64(head(tail.as_str(), ".").as_str()) {
                Some(n) => n,
                None => u64::MAX,
            };
            Release { nums: read_numbers(core.as_str()), rc: Some(rc) }
        },
        None => Release { nums: read_numbers(v), rc: None },
    }
}

fn number_at(v: &Vec<u64>, i: usize) -> (r: u64)
    ensures
        r == place(v@.map_values(|n: u64| n as nat), i as int),
{
    if i < v.len() {
        v[i]
    } else {
        0
    }
}

fn is_at_least(a: &Release, b: &Release) -> (r: bool)
    ensures
        r == at_least(a@, b@),
{
    let n: usize = if a.nums.len() > b.nums.len() {
        a.nums.len()
    } else {
        b.nums.len()
    };
    let mut i: usize = 0;
    while i < n
        invariant
            i <= n,
            n == if a.nums@.len() > b.nums@.len() { a.nums@.len() } else { b.nums@.len() },
            first_difference(a@.nums, b@.nums, 0) == first_difference(a@.nums, b@.nums, i as int),
        decreases n - i,
    {
        let x: u64 = number_at(&a.nums, i);
        let y: u64 = number_at(&b.nums, i);
        if x > y {
            return true;
        }
        if x < y {
            return false;
        }
        i += 1;
    }
    match (a.rc, b.rc) {
        (None, _) => true,
        (Some(_), None) => false,
        (Some(x), Some(y)) => x >= y,
    }
}

/// Whether the release that is present satisfies the one that is wanted.
pub fn version_ok(got: &str, want: &str) -> (r: bool)
    ensures
        r == satisfies(got@, want@),
{
    let w = trimmed(want);
    if w.as_str().is_empty() || same(w.as_str(), "*") {
        return true;
    }
    let w = stripped_start(stripped_start(w.as_str(), "^~>= ").as_str(), "v");
    let g = stripped_start(got, "^~>= v");
    let wv = read_release(w.as_str());
    let gv = read_release(g.as_str());
    if wv.nums.len() == 0 || gv.nums.len() == 0 {
        return true;
    }
    is_at_least(&gv, &wv)
}

// ---------------------------------------------------------------- numbers that are written out

/// A release of three numbers, written out.
pub open spec fn three(a: nat, b: nat, c: nat) -> Seq<char> {
    dec(a) + seq!['.'] + (dec(b) + seq!['.'] + dec(c))
}

proof fn no_candidate(s: Seq<char>)
    requires
        !s.contains('-'),
    ensures
        split_once(s, "-rc."@) is None,
{
    reveal_strlit("-rc.");
    find_from_is_first(s, "-rc."@, 0);
    if let Some(i) = find(s, "-rc."@) {
        assert(s.subrange(i, i + 4)[0] == s[i]);
    }
}

proof fn three_parts(a: nat, b: nat, c: nat)
    requires
        a <= u64::MAX,
        b <= u64::MAX,
        c <= u64::MAX,
    ensures
        numbers(split(three(a, b, c), "."@)) == seq![a, b, c],
        !three(a, b, c).contains('-'),
        three(a, b, c).len() > 0,
        '0' <= three(a, b, c)[0] <= '9',
        '0' <= three(a, b, c).last() <= '9',
{
    reveal_strlit(".");
    assert("."@ =~= seq!['.']);
    dec_is_plain(a);
    dec_is_plain(b);
    dec_is_plain(c);
    split_behind(dec(a), '.', dec(b) + seq!['.'] + dec(c));
    split_behind(dec(b), '.', dec(c));
    not_found(dec(c), '.');
    let p = split(three(a, b, c), seq!['.']);
    assert(p =~= seq![dec(a), dec(b), dec(c)]);
    dec_round_trip(a, u64::MAX as nat);
    dec_round_trip(b, u64::MAX as nat);
    dec_round_trip(c, u64::MAX as nat);
    assert(p.drop_last() =~= seq![dec(a), dec(b)]);
    assert(p.drop_last().drop_last() =~= seq![dec(a)]);
    assert(p.drop_last().drop_last().drop_last() =~= seq![]);
    reveal_with_fuel(numbers, 4);
    assert(numbers(p) =~= seq![a, b, c]);
    assert(three(a, b, c).last() == dec(c).last());
}

/// Three numbers with dots between them are read as these numbers, and so is the number of a
/// candidate behind them.
pub proof fn written_release_is_read(a: nat, b: nat, c: nat, rc: nat)
    requires
        a <= u64::MAX,
        b <= u64::MAX,
        c <= u64::MAX,
        rc <= u64::MAX,
    ensures
        release_of(three(a, b, c)) == (ReleaseView { nums: seq![a, b, c], rc: None }),
        release_of(three(a, b, c) + "-rc."@ + dec(rc)) == (ReleaseView {
            nums: seq![a, b, c],
            rc: Some(rc),
        }),
{
    let t = three(a, b, c);
    three_parts(a, b, c);
    no_candidate(t);
    reveal_strlit("-rc.");
    reveal_strlit(".");
    assert("."@ =~= seq!['.']);
    let p = "-rc."@;
    let s = t + p + dec(rc);
    find_from_is_first(s, p, 0);
    let n = t.len() as int;
    assert(s.subrange(n, n + 4) =~= p);
    assert(occurs_at(s, p, n));
    let k = find(s, p)->0;
    if k < n {
        assert(s.subrange(k, k + 4)[0] == s[k]);
        assert(t[k] == '-');
        assert(t.contains('-'));
    }
    assert(s.take(n) =~= t);
    assert(s.skip(n + 4) =~= dec(rc));
    dec_is_plain(rc);
    not_found(dec(rc), '.');
    dec_round_trip(rc, u64::MAX as nat);
}

/// A host of three numbers satisfies what is wanted, with the signs of a range before it or
/// without, exactly where it is no older: by the first number, where these are alike by the
/// second, then by the third. The numbers count as numbers, not as texts.
pub proof fn no_older_host_satisfies(
    a: nat,
    b: nat,
    c: nat,
    sign: Seq<char>,
    x: nat,
    y: nat,
    z: nat,
)
    requires
        a <= u64::MAX,
        b <= u64::MAX,
        c <= u64::MAX,
        x <= u64::MAX,
        y <= u64::MAX,
        z <= u64::MAX,
        only_of(sign, seq!['^', '~', '>', '=']),
    ensures
        satisfies(three(a, b, c), sign + three(x, y, z)) <==> a > x || (a == x && (b > y || (b == y
            && c >= z))),
{
    let (g, w) = (three(a, b, c), three(x, y, z));
    written_release_is_read(a, b, c, 0);
    written_release_is_read(x, y, z, 0);
    three_parts(a, b, c);
    three_parts(x, y, z);
    reveal_strlit("^~>= ");
    reveal_strlit("^~>= v");
    reveal_strlit("v");
    reveal_strlit("*");
    let e = Seq::<char>::empty();
    let set = "^~>= "@;
    assert(set.contains('^')) by {
        assert(set[0] == '^');
    }
    assert(set.contains('~')) by {
        assert(set[1] == '~');
    }
    assert(set.contains('>')) by {
        assert(set[2] == '>');
    }
    assert(set.contains('=')) by {
        assert(set[3] == '=');
    }
    let s = sign + w;
    assert(only_of(sign, set)) by {
        assert forall|i: int| 0 <= i < sign.len() implies set.contains(#[trigger] sign[i]) by {
            assert(seq!['^', '~', '>', '='].contains(sign[i]));
        }
    }
    assert(!is_space(s[0])) by {
        if sign.len() > 0 {
            assert(seq!['^', '~', '>', '='].contains(sign[0]));
        }
    }
    assert(s.last() == w.last());
    trimming_bares(e, s, e);
    assert(e + s + e =~= s);
    stripping_bares(w, sign, set);
    stripping_bares(w, e, "v"@);
    assert(e + w =~= w);
    stripping_bares(g, e, "^~>= v"@);
    assert(e + g =~= g);
    assert(bare_want(s) == w);
    assert(bare_got(g) == g);
    assert(trim(s) != "*"@) by {
        if s == "*"@ {
            assert(s.last() == '*');
        }
    }
    let (m, n) = (seq![a, b, c], seq![x, y, z]);
    assert(place(m, 0) == a && place(m, 1) == b && place(m, 2) == c);
    assert(place(n, 0) == x && place(n, 1) == y && place(n, 2) == z);
    difference_is_first(m, n, 0);
    if let Some(i) = first_difference(m, n, 0) {
        assert(i < 3);
    }
}

} // verus!
