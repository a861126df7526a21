//! Character-level readings of the texts that miners, nodes and command lines send.

use crate::hexcode::digit_value;
use vstd::prelude::*;

verus! {

/// The position of the first `c` in `s`, or the length of `s` where there is none.
pub open spec fn first_index(s: Seq<char>, c: char) -> nat
    decreases s.len(),
{
    if s.len() == 0 || s[0] == c {
        0
    } else {
        1 + first_index(s.drop_first(), c)
    }
}

/// What stands before the first `c`, all of `s` where there is none.
pub open spec fn before_first(s: Seq<char>, c: char) -> Seq<char> {
    s.take(first_index(s, c) as int)
}

/// What stands behind the first `c`, nothing where there is none.
pub open spec fn after_first(s: Seq<char>, c: char) -> Seq<char> {
    if first_index(s, c) < s.len() {
        s.skip(first_index(s, c) as int + 1)
    } else {
        Seq::empty()
    }
}

/// `s` without its leading `0x`, however often it is repeated.
pub open spec fn without_0x(s: Seq<char>) -> Seq<char>
    decreases s.len(),
{
    if s.len() >= 2 && s[0] == '0' && s[1] == 'x' {
        without_0x(s.skip(2))
    } else {
        s
    }
}

/// `s` without the slashes at its end.
pub open spec fn without_final_slashes(s: Seq<char>) -> Seq<char>
    decreases s.len(),
{
    if s.len() > 0 && s.last() == '/' {
        without_final_slashes(s.drop_last())
    } else {
        s
    }
}

/// The number that a row of hexadecimal digits stands for.
pub open spec fn hex_number(s: Seq<char>) -> Option<nat>
    decreases s.len(),
{
    if s.len() == 0 {
        Some(0)
    } else {
        match (hex_number(s.drop_last()), digit_value(s.last())) {
            (Some(high), Some(low)) => Some(16 * high + low),
            _ => None,
        }
    }
}

/// A hexadecimal number of at most `max`: a plus sign or none, then at least one digit.
pub open spec fn parsed_hex(s: Seq<char>, max: nat) -> Option<nat> {
    let digits = if s.len() > 0 && s[0] == '+' {
        s.drop_first()
    } else {
        s
    };
    match hex_number(digits) {
        Some(n) => if digits.len() > 0 && n <= max {
            Some(n)
        } else {
            None
        },
        None => None,
    }
}

/// The decimal digits of `n`.
pub open spec fn decimal(n: nat) -> Seq<char>
    decreases n,
{
    let last = seq![('0' as nat + n % 10) as char];
    if n < 10 {
        last
    } else {
        decimal(n / 10) + last
    }
}

/// The decimal form of a signed number.
pub open spec fn signed_decimal(n: int) -> Seq<char> {
    if n < 0 {
        seq!['-'] + decimal((-n) as nat)
    } else {
        decimal(n as nat)
    }
}

/// The characters of `s`.
pub fn chars_of(s: &str) -> (out: Vec<char>)
    ensures
        out@ == s@,
{
    let mut out: Vec<char> = Vec::new();
    for c in it: s.chars()
        invariant
            out@ == it.seq().take(it.index() as int),
            it.seq() == s@,
    {
        out.push(c);
        assert(out@ =~= it.seq().take(it.index() + 1));
    }
    assert(out@ =~= s@);
    out
}

/// Whether two texts are the same.
pub fn same_text(a: &str, b: &str) -> (same: bool)
    ensures
        same == (a@ == b@),
{
    a.to_owned() == b.to_owned()
}

proof fn lemma_first_index(s: Seq<char>, c: char, i: int)
    requires
        0 <= i <= s.len(),
        i < s.len() ==> s[i] == c,
        forall|j: int| 0 <= j < i ==> s[j] != c,
    ensures
        first_index(s, c) == i,
    decreases s.len(),
{
    if i > 0 {
        lemma_first_index(s.drop_first(), c, i - 1);
    }
}

/// `s` parted at its first `c`: what stands before it and what stands behind it.
pub fn split_first(s: &str, c: char) -> (parts: (&str, &str))
    ensures
        parts.0@ == before_first(s@, c),
        parts.1@ == after_first(s@, c),
{
    let chars: Vec<char> = chars_of(s);
    let total: usize = chars.len();
    let mut i: usize = 0;
    while i < total && chars[i] != c
        invariant
            i <= total,
            total == chars@.len(),
            chars@ == s@,
            forall|j: int| 0 <= j < i ==> s@[j] != c,
        decreases total - i,
    {
        i = i + 1;
    }
    proof {
        lemma_first_index(s@, c, i as int);
    }
    let head: &str = s.substring_char(0, i);
    let tail: &str = if i < total {
        s.substring_char(i + 1, total)
    } else {
        s.substring_char(total, total)
    };
    assert(head@ =~= before_first(s@, c));
    assert(tail@ =~= after_first(s@, c));
    (head, tail)
}

/// Drops every leading `0x`.
pub fn trim_0x(s: &str) -> (rest: &str)
    ensures
        rest@ == without_0x(s@),
{
    let chars: Vec<char> = chars_of(s);
    let total: usize = chars.len();
    let mut i: usize = 0;
    assert(s@.skip(0) =~= s@);
    while total - i >= 2 && chars[i] == '0' && chars[i + 1] == 'x'
        invariant
            i <= total,
            total == chars@.len(),
            chars@ == s@,
            without_0x(s@) == without_0x(s@.skip(i as int)),
        decreases total - i,
    {
        assert(s@.skip(i as int).skip(2) =~= s@.skip(i + 2));
        i = i + 2;
    }
    let rest: &str = s.substring_char(i, total);
    assert(rest@ =~= s@.skip(i as int));
    rest
}

/// Drops the slashes at the end.
pub fn trim_final_slashes(s: &str) -> (rest: &str)
    ensures
        rest@ == without_final_slashes(s@),
{
    let chars: Vec<char> = chars_of(s);
    let mut end: usize = chars.len();
    assert(s@.take(end as int) =~= s@);
    while end > 0 && chars[end - 1] == '/'
        invariant
            end <= chars@.len(),
            chars@ == s@,
            without_final_slashes(s@) == without_final_slashes(s@.take(end as int)),
        decreases end,
    {
        assert(s@.take(end as int).drop_last() =~= s@.take(end - 1));
        end = end - 1;
    }
    let rest: &str = s.substring_char(0, end);
    assert(rest@ =~= s@.take(end as int));
    rest
}

/// What follows `prefix` in a text that starts with it.
pub fn strip_prefix<'a>(s: &'a str, prefix: &str) -> (rest: Option<&'a str>)
    ensures
        rest is Some <==> prefix@.is_prefix_of(s@),
        rest matches Some(r) ==> r@ == s@.skip(prefix@.len() as int),
{
    let chars: Vec<char> = chars_of(s);
    let start: Vec<char> = chars_of(prefix);
    if start.len() > chars.len() {
        return None;
    }
    let mut i: usize = 0;
    while i < start.len()
        invariant
            i <= start@.len() <= chars@.len(),
            chars@ == s@,
            start@ == prefix@,
            forall|j: int| 0 <= j < i ==> s@[j] == prefix@[j],
        decreases start@.len() - i,
    {
        if chars[i] != start[i] {
            assert(s@.subrange(0, prefix@.len() as int)[i as int] == s@[i as int]);
            return None;
        }
        i = i + 1;
    }
    assert(s@.subrange(0, prefix@.len() as int) =~= prefix@);
    let rest: &str = s.substring_char(i, chars.len());
    assert(rest@ =~= s@.skip(prefix@.len() as int));
    Some(rest)
}

/// Where a leading part of the digits fails or exceeds a bound, so does the whole.
proof fn lemma_hex_number_prefix(s: Seq<char>, i: int)
    requires
        0 <= i <= s.len(),
    ensures
        hex_number(s.take(i)) is None ==> hex_number(s) is None,
        hex_number(s) matches Some(n) ==> n >= hex_number(s.take(i))->0,
    decreases s.len() - i,
{
    if i == s.len() {
        assert(s.take(i) =~= s);
    } else {
        lemma_hex_number_prefix(s, i + 1);
        assert(s.take(i + 1).drop_last() =~= s.take(i));
    }
}

fn digit_of(c: char) -> (d: Option<u64>)
    ensures
        d is Some <==> digit_value(c) is Some,
        d matches Some(v) ==> digit_value(c) == Some(v as nat) && v < 16,
{
    if '0' <= c && c <= '9' {
        Some(c as u64 - 48)
    } else if 'a' <= c && c <= 'f' {
        Some(c as u64 - 87)
    } else if 'A' <= c && c <= 'F' {
        Some(c as u64 - 55)
    } else {
        None
    }
}

/// Reads a hexadecimal number of at most `max`.
pub fn parse_hex(s: &str, max: u64) -> (n: Option<u64>)
    ensures
        n is Some <==> parsed_hex(s@, max as nat) is Some,
        n matches Some(v) ==> parsed_hex(s@, max as nat) == Some(v as nat) && v <= max,
{
    let chars: Vec<char> = chars_of(s);
    let total: usize = chars.len();
    let start: usize = if total > 0 && chars[0] == '+' {
        1
    } else {
        0
    };
    let ghost digits = s@.skip(start as int);
    assert(start == 1 ==> s@.drop_first() =~= digits);
    assert(start == 0 ==> s@ =~= digits);
    if start == total {
        return None;
    }
    let mut n: u64 = 0;
    let mut i: usize = start;
    assert(digits.take(0).len() == 0);
    while i < total
        invariant
            start <= i <= total,
            total == chars@.len(),
            chars@ == s@,
            digits == s@.skip(start as int),
            n <= max,
            hex_number(digits.take(i - start)) == Some(n as nat),
            parsed_hex(s@, max as nat) == (match hex_number(digits) {
                Some(v) => if v <= max {
                    Some(v)
                } else {
                    None
                },
                None => None,
            }),
        decreases total - i,
    {
        let ghost k: int = i - start;
        assert(digits.take(k + 1).drop_last() =~= digits.take(k));
        assert(digits.take(k + 1).last() == chars@[i as int]);
        proof {
            lemma_hex_number_prefix(digits, k + 1);
        }
        match digit_of(chars[i]) {
            Some(d) => {
                if d > max || n > (max - d) / 16 {
                    return None;
                }
                n = 16 * n + d;
            },
            None => {
                return None;
            },
        }
        i = i + 1;
    }
    assert(digits.take(total - start) =~= digits);
    Some(n)
}

fn digit_text(d: u64) -> (text: String)
    requires
        d < 10,
    ensures
        text@ == seq![('0' as nat + d) as char],
{
    proof {
        reveal_strlit("0");
        reveal_strlit("1");
        reveal_strlit("2");
        reveal_strlit("3");
        reveal_strlit("4");
        reveal_strlit("5");
        reveal_strlit("6");
        reveal_strlit("7");
        reveal_strlit("8");
        reveal_strlit("9");
    }
    let text: String = (if d == 0 {
        "0"
    } else if d == 1 {
        "1"
    } else if d == 2 {
        "2"
    } else if d == 3 {
        "3"
    } else if d == 4 {
        "4"
    } else if d == 5 {
        "5"
    } else if d == 6 {
        "6"
    } else if d == 7 {
        "7"
    } else if d == 8 {
        "8"
    } else {
        "9"
    }).to_owned();
    assert(text@ =~= seq![('0' as nat + d) as char]);
    text
}

/// Writes `n` in decimal digits.
pub fn decimal_text(n: u64) -> (text: String)
    ensures
        text@ == decimal(n as nat),
    decreases n,
{
    if n < 10 {
        digit_text(n)
    } else {
        let high: String = decimal_text(n / 10);
        high.concat(digit_text(n % 10).as_str())
    }
}

/// Writes a signed number in decimal digits.
pub fn signed_text(n: i64) -> (text: String)
    ensures
        text@ == signed_decimal(n as int),
{
    if n < 0 {
        let size: u64 = if n == i64::MIN {
            0x8000_0000_0000_0000
        } else {
            (-n) as u64
        };
        proof {
            reveal_strlit("-");
        }
        let sign: String = "-".to_owned();
        assert(sign@ =~= seq!['-']);
        sign.concat(decimal_text(size).as_str())
    } else {
        decimal_text(n as u64)
    }
}

} // verus!
