//! Numbers as text: decimal and hexadecimal, written and read.
use vstd::prelude::*;
use crate::text::chars_of;

verus! {

// ---------------------------------------------------------------- models

/// The character of the digit `d`, below sixteen.
pub open spec fn digit_char(d: nat) -> char {
    if d < 10 {
        (48 + d) as char
    } else {
        (87 + d) as char
    }
}

/// The decimal text of `n`.
pub open spec fn dec(n: nat) -> Seq<char>
    decreases n,
{
    if n < 10 {
        seq![digit_char(n)]
    } else {
        dec(n / 10).push(digit_char(n % 10))
    }
}

/// The lowercase hexadecimal text of `n`.
pub open spec fn hex(n: nat) -> Seq<char>
    decreases n,
{
    if n < 16 {
        seq![digit_char(n)]
    } else {
        hex(n / 16).push(digit_char(n % 16))
    }
}

/// The value of a digit; sixteen where `c` is none.
pub open spec fn digit_value(c: char) -> nat {
    let n = c as u32 as nat;
    if 48 <= n <= 57 {
        (n - 48) as nat
    } else if 97 <= n <= 102 {
        (n - 87) as nat
    } else if 65 <= n <= 70 {
        (n - 55) as nat
    } else {
        16
    }
}

/// `c` is a digit of the base, sixteen or ten.
pub open spec fn is_digit(c: char, sixteen: bool) -> bool {
    digit_value(c) < if sixteen { 16nat } else { 10nat }
}

/// `n` moved up by one place.
pub open spec fn shifted(n: nat, sixteen: bool) -> nat {
    if sixteen {
        n * 16
    } else {
        n * 10
    }
}

/// The number that the digits of `s` write.
pub open spec fn value(s: Seq<char>, sixteen: bool) -> nat
    decreases s.len(),
{
    if s.len() == 0 {
        0
    } else {
        shifted(value(s.drop_last(), sixteen), sixteen) + digit_value(s.last())
    }
}

/// `s` is made of digits, and of one at least.
pub open spec fn all_digits(s: Seq<char>, sixteen: bool) -> bool {
    s.len() > 0 && forall|i: int| 0 <= i < s.len() ==> is_digit(#[trigger] s[i], sixteen)
}

/// `s` without one plus sign at its start.
pub open spec fn unplus(s: Seq<char>) -> Seq<char> {
    if s.len() > 0 && s[0] == '+' {
        s.skip(1)
    } else {
        s
    }
}

/// The unsigned number that `s` writes, if it writes one of at most `max`: digits,
/// with or without a plus sign before them.
pub open spec fn uint_of(s: Seq<char>, sixteen: bool, max: nat) -> Option<nat> {
    let d = unplus(s);
    if all_digits(d, sixteen) && value(d, sixteen) <= max {
        Some(value(d, sixteen))
    } else {
        None
    }
}

/// The signed number of 64 bits that `s` writes, if it writes one.
pub open spec fn int_of(s: Seq<char>) -> Option<int> {
    if s.len() > 0 && s[0] == '-' {
        let d = s.skip(1);
        if all_digits(d, false) && value(d, false) <= 0x8000_0000_0000_0000 {
            Some(-(value(d, false) as int))
        } else {
            None
        }
    } else {
        match uint_of(s, false, 0x7fff_ffff_ffff_ffff) {
            Some(n) => Some(n as int),
            None => None,
        }
    }
}

// ---------------------------------------------------------------- lemmas

proof fn value_grows(s: Seq<char>, k: int, sixteen: bool)
    requires
        0 <= k <= s.len(),
    ensures
        value(s.take(k), sixteen) <= value(s, sixteen),
    decreases s.len(),
{
    if k == s.len() {
        assert(s.take(k) =~= s);
    } else {
        value_grows(s.drop_last(), k, sixteen);
        assert(s.drop_last().take(k) =~= s.take(k));
    }
}

/// A number is written in digits, one at the least.
pub proof fn dec_is_plain(n: nat)
    ensures
        forall|i: int| 0 <= i < dec(n).len() ==> '0' <= #[trigger] dec(n)[i] <= '9',
        dec(n).len() > 0,
    decreases n,
{
    if n >= 10 {
        dec_is_plain(n / 10);
    }
}

/// Every digit of a decimal text is a digit, and the text reads back as the
/// number that it was written from.
pub proof fn dec_reads_back(n: nat)
    ensures
        all_digits(dec(n), false),
        value(dec(n), false) == n,
        dec(n)[0] != '+',
        dec(n)[0] != '-',
    decreases n,
{
    if n < 10 {
        let s = seq![digit_char(n)];
        assert(s.drop_last() =~= seq![]);
        assert(value(s.drop_last(), false) == 0);
    } else {
        dec_reads_back(n / 10);
        let s = dec(n);
        assert(s.drop_last() =~= dec(n / 10));
        assert(s[0] == dec(n / 10)[0]);
    }
}

/// What is written in decimal is read as the same number.
pub proof fn dec_round_trip(n: nat, max: nat)
    requires
        n <= max,
    ensures
        uint_of(dec(n), false, max) == Some(n),
{
    dec_reads_back(n);
}

// ---------------------------------------------------------------- writing

/// The decimal text of `n`.
pub fn decimal(n: u64) -> (r: String)
    ensures
        r@ == dec(n as nat),
    decreases n,
{
    if n < 10 {
        let mut s = String::new();
        s.push((48 + n as u8) as char);
        assert(s@ =~= seq![digit_char(n as nat)]);
        s
    } else {
        let mut s = decimal(n / 10);
        s.push((48 + (n % 10) as u8) as char);
        s
    }
}

/// The lowercase hexadecimal text of `n`.
pub fn hexadecimal(n: u64) -> (r: String)
    ensures
        r@ == hex(n as nat),
    decreases n,
{
    let d: u8 = (n % 16) as u8;
    let c: char = if d < 10 {
        (48 + d) as char
    } else {
        (87 + d) as char
    };
    if n < 16 {
        let mut s = String::new();
        s.push(c);
        assert(s@ =~= seq![digit_char(n as nat)]);
        s
    } else {
        let mut s = hexadecimal(n / 16);
        s.push(c);
        s
    }
}

// ---------------------------------------------------------------- reading

fn digit_of(c: char) -> (d: u64)
    ensures
        d == digit_value(c),
        d <= 16,
{
    let n: u32 = c as u32;
    if 48 <= n && n <= 57 {
        (n - 48) as u64
    } else if 97 <= n && n <= 102 {
        (n - 87) as u64
    } else if 65 <= n && n <= 70 {
        (n - 55) as u64
    } else {
        16
    }
}

/// The number that the digits of `v` from `from` on write, if it fits.
fn read_digits(v: &Vec<char>, from: usize, sixteen: bool) -> (r: Option<u64>)
    requires
        from <= v@.len(),
    ensures
        ({
            let d = v@.skip(from as int);
            match r {
                Some(n) => all_digits(d, sixteen) && value(d, sixteen) == n,
                None => !(all_digits(d, sixteen) && value(d, sixteen) <= u64::MAX),
            }
        }),
{
    let ghost d = v@.skip(from as int);
    if from >= v.len() {
        return None;
    }
    let base: u64 = if sixteen {
        16
    } else {
        10
    };
    let mut acc: u64 = 0;
    let mut i: usize = from;
    assert(d.take(0) =~= seq![]);
    while i < v.len()
        invariant
            from <= i <= v@.len(),
            d == v@.skip(from as int),
            base == if sixteen { 16u64 } else { 10u64 },
            acc == value(d.take(i - from), sixteen),
            forall|j: int| 0 <= j < i - from ==> is_digit(#[trigger] d[j], sixteen),
        decreases v@.len() - i,
    {
        let x: u64 = digit_of(v[i]);
        assert(d[i - from] == v@[i as int]);
        if x >= base {
            return None;
        }
        proof {
            let t = d.take(i - from + 1);
            assert(t.drop_last() =~= d.take(i - from));
            assert(t.last() == d[i - from]);
            value_grows(d, i - from + 1, sixteen);
        }
        let wide: u128 = if sixteen {
            acc as u128 * 16
        } else {
            acc as u128 * 10
        };
        let next: u128 = wide + x as u128;
        if next > u64::MAX as u128 {
            return None;
        }
        acc = next as u64;
        i += 1;
    }
    assert(d.take(i - from) =~= d);
    Some(acc)
}

/// The number that `s` writes in the base, if it writes one of at most `max`.
pub fn read_uint(s: &str, sixteen: bool, max: u64) -> (r: Option<u64>)
    ensures
        match r {
            Some(n) => uint_of(s@, sixteen, max as nat) == Some(n as nat) && n <= max,
            None => uint_of(s@, sixteen, max as nat) is None,
        },
{
    let v = chars_of(s);
    let from: usize = if v.len() > 0 && v[0] == '+' {
        1
    } else {
        0
    };
    assert(v@.skip(from as int) =~= unplus(s@));
    match read_digits(&v, from, sixteen) {
        Some(n) => if n <= max {
            Some(n)
        } else {
            None
        },
        None => None,
    }
}

/// The decimal number of 64 bits that `s` writes, if it writes one.
pub fn read_u64(s: &str) -> (r: Option<u64>)
    ensures
        match r {
            Some(n) => uint_of(s@, false, u64::MAX as nat) == Some(n as nat),
            None => uint_of(s@, false, u64::MAX as nat) is None,
        },
{
    read_uint(s, false, u64::MAX)
}

/// The decimal number of 16 bits that `s` writes, if it writes one.
pub fn read_u16(s: &str) -> (r: Option<u16>)
    ensures
        match r {
            Some(n) => uint_of(s@, false, u16::MAX as nat) == Some(n as nat),
            None => uint_of(s@, false, u16::MAX as nat) is None,
        },
{
    match read_uint(s, false, u16::MAX as u64) {
        Some(n) => Some(n as u16),
        None => None,
    }
}

/// The signed number of 64 bits that `s` writes, if it writes one.
pub fn read_i64(s: &str) -> (r: Option<i64>)
    ensures
        match r {
            Some(n) => int_of(s@) == Some(n as int),
            None => int_of(s@) is None,
        },
{
    let v = chars_of(s);
    if v.len() > 0 && v[0] == '-' {
        match read_digits(&v, 1, false) {
            Some(n) => if n < 0x8000_0000_0000_0000 {
                Some(-(n as i64))
            } else if n == 0x8000_0000_0000_0000 {
                Some(i64::MIN)
            } else {
                None
            },
            None => None,
        }
    } else {
        match read_uint(s, false, 0x7fff_ffff_ffff_ffff) {
            Some(n) => Some(n as i64),
            None => None,
        }
    }
}

// ---------------------------------------------------------------- laws

/// A hexadecimal text reads back as the number that it was written from, and no digit of it
/// is a capital letter.
pub proof fn hex_reads_back(n: nat)
    ensures
        all_digits(hex(n), true),
        value(hex(n), true) == n,
        forall|i: int| 0 <= i < hex(n).len() ==> !('A' <= #[trigger] hex(n)[i] <= 'Z'),
    decreases n,
{
    if n < 16 {
        let s = seq![digit_char(n)];
        assert(s.drop_last() =~= seq![]);
        assert(value(s.drop_last(), true) == 0);
    } else {
        hex_reads_back(n / 16);
        let s = hex(n);
        assert(s.drop_last() =~= hex(n / 16));
    }
}

/// A number with a sign before it is read with its sign, as far as 64 bits hold it.
pub proof fn signs_are_read(n: nat)
    ensures
        n <= 0x8000_0000_0000_0000 ==> int_of(seq!['-'] + dec(n)) == Some(-(n as int)),
        n > 0x8000_0000_0000_0000 ==> int_of(seq!['-'] + dec(n)) is None,
        n <= 0x7fff_ffff_ffff_ffff ==> int_of(dec(n)) == Some(n as int),
        n <= 0x7fff_ffff_ffff_ffff ==> int_of(seq!['+'] + dec(n)) == Some(n as int),
        n > 0x7fff_ffff_ffff_ffff ==> int_of(dec(n)) is None,
{
    dec_reads_back(n);
    assert((seq!['-'] + dec(n)).skip(1) =~= dec(n));
    assert((seq!['+'] + dec(n)).skip(1) =~= dec(n));
}

proof fn is_none(c: char)
    requires
        !('0' <= c <= '9'),
    ensures
        !is_digit(c, false),
{
}

/// What holds anything but digits, behind at most one plus sign, is no number.
pub proof fn other_texts_are_no_numbers(s: Seq<char>, i: int, max: nat)
    requires
        0 <= i < s.len(),
        !('0' <= s[i] <= '9'),
        i > 0 || s[i] != '+',
    ensures
        uint_of(s, false, max) is None,
{
    let d = unplus(s);
    is_none(s[i]);
    if s[0] == '+' {
        assert(d[i - 1] == s[i]);
    } else {
        assert(d[i] == s[i]);
    }
}

} // verus!
