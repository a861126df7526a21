//! What numbers, hexadecimal text and variable-length integers are written as.

use crate::bytes::{
    be_bytes, be_value, le_bytes, le_value, lemma_be_bytes_value, lemma_be_zeros, lemma_le_bytes,
    lemma_pow256_8, pow256, zeros,
};
use crate::hexcode;
use crate::text::{
    after_first, before_first, decimal, first_index, hex_number, parsed_hex, signed_decimal,
    without_0x, without_final_slashes,
};
use crate::varint::{var_bytes, varint_at, varint_bytes};
use vstd::arithmetic::div_mod::lemma_div_denominator;
use vstd::arithmetic::power::{lemma_pow0, lemma_pow_adds, lemma_pow_positive, lemma_pow1, pow};
use vstd::prelude::*;

verus! {

proof fn lemma_pow_step(k: nat)
    ensures
        pow(256, k + 1) == 256 * pow(256, k),
{
    lemma_pow_adds(256, 1, k);
    lemma_pow1(256);
}

/// The powers of 256 are those of arithmetic.
pub proof fn powers_are_those_of_arithmetic(k: nat)
    ensures
        pow256(k) == pow(256, k),
    decreases k,
{
    if k == 0 {
        lemma_pow0(256);
    } else {
        powers_are_those_of_arithmetic((k - 1) as nat);
        lemma_pow_step((k - 1) as nat);
    }
}

/// A big-endian byte weighs 256 to the power of the number of bytes behind it: changing it
/// changes the number by that much for each unit. Zero bytes stand for zero.
pub proof fn big_endian_bytes_have_their_weight(s: Seq<u8>, i: int, b: u8)
    requires
        0 <= i < s.len(),
    ensures
        be_value(s.update(i, b)) - be_value(s) == (b - s[i]) * pow(256, (s.len() - 1 - i) as nat),
        be_value(zeros(s.len())) == 0,
    decreases s.len(),
{
    lemma_be_zeros(s.len());
    let t = s.update(i, b);
    if i == s.len() - 1 {
        assert(t.drop_last() =~= s.drop_last());
        lemma_pow0(256);
    } else {
        big_endian_bytes_have_their_weight(s.drop_last(), i, b);
        assert(t.drop_last() =~= s.drop_last().update(i, b));
        assert(t.last() == s.last());
        let k = (s.len() - 2 - i) as nat;
        lemma_pow_step(k);
        let d = b - s[i];
        let p = pow(256, k);
        assert(256 * (d * p) == d * (256 * p)) by (nonlinear_arith);
    }
}

/// A little-endian byte weighs 256 to the power of the number of bytes before it.
pub proof fn little_endian_bytes_have_their_weight(s: Seq<u8>, i: int, b: u8)
    requires
        0 <= i < s.len(),
    ensures
        le_value(s.update(i, b)) - le_value(s) == (b - s[i]) * pow(256, i as nat),
        le_value(zeros(s.len())) == 0,
    decreases s.len(),
{
    let t = s.update(i, b);
    lemma_le_zeros(s.len());
    if i == 0 {
        assert(t.drop_first() =~= s.drop_first());
        lemma_pow0(256);
    } else {
        little_endian_bytes_have_their_weight(s.drop_first(), i - 1, b);
        assert(t.drop_first() =~= s.drop_first().update(i - 1, b));
        lemma_pow_step((i - 1) as nat);
        let d = b - s[i];
        let p = pow(256, (i - 1) as nat);
        assert(256 * (d * p) == d * (256 * p)) by (nonlinear_arith);
    }
}

proof fn lemma_le_zeros(n: nat)
    ensures
        le_value(zeros(n)) == 0,
    decreases n,
{
    if n > 0 {
        lemma_le_zeros((n - 1) as nat);
        assert(zeros(n).drop_first() =~= zeros((n - 1) as nat));
    }
}

/// Each byte of a number is its digit in base 256, the lowest first or last.
pub proof fn bytes_are_digits_in_base_256(n: nat, width: nat, i: int)
    requires
        0 <= i < width,
    ensures
        le_bytes(n, width).len() == width,
        be_bytes(n, width).len() == width,
        le_bytes(n, width)[i] == (n as int / pow(256, i as nat)) % 256,
        be_bytes(n, width)[width - 1 - i] == (n as int / pow(256, i as nat)) % 256,
    decreases width,
{
    lemma_le_bytes(n, width);
    lemma_be_len(n, width);
    lemma_be_len(n / 256, (width - 1) as nat);
    if i == 0 {
        lemma_pow0(256);
        assert(n as int / 1 == n);
    } else {
        bytes_are_digits_in_base_256(n / 256, (width - 1) as nat, i - 1);
        lemma_pow_positive(256, (i - 1) as nat);
        lemma_pow_step((i - 1) as nat);
        lemma_div_denominator(n as int, 256, pow(256, (i - 1) as nat));
        assert(le_bytes(n, width)[i] == le_bytes(n / 256, (width - 1) as nat)[i - 1]);
        assert(be_bytes(n, width)[width - 1 - i] == be_bytes(n / 256, (width - 1) as nat)[width - 1
            - i]);
    }
}

proof fn lemma_be_len(n: nat, width: nat)
    ensures
        be_bytes(n, width).len() == width,
    decreases width,
{
    if width > 0 {
        lemma_be_len(n / 256, (width - 1) as nat);
    }
}

/// Hexadecimal text has two lowercase digits for each byte, the high one first.
pub proof fn hexadecimal_text_spells_each_byte(data: Seq<u8>, i: int)
    requires
        0 <= i < data.len(),
    ensures
        hexcode::encoded(data).len() == 2 * data.len(),
        hexcode::encoded(data)[2 * i] == "0123456789abcdef"@[data[i] as int / 16],
        hexcode::encoded(data)[2 * i + 1] == "0123456789abcdef"@[data[i] as int % 16],
{
    lemma_lowercase_digit(data[i] as nat / 16);
    lemma_lowercase_digit(data[i] as nat % 16);
    assert((2 * i) / 2 == i && (2 * i + 1) / 2 == i && (2 * i) % 2 == 0 && (2 * i + 1) % 2 == 1);
}

proof fn lemma_lowercase_digit(n: nat)
    requires
        n < 16,
    ensures
        hexcode::digit(n) == "0123456789abcdef"@[n as int],
        hexcode::digit_value("0123456789abcdef"@[n as int]) == Some(n),
        hexcode::digit_value("0123456789ABCDEF"@[n as int]) == Some(n),
{
    reveal_strlit("0123456789abcdef");
    reveal_strlit("0123456789ABCDEF");
}

/// Exactly the sixteen digits, in either case, are read as hexadecimal digits, each with its
/// place as its value.
pub proof fn hexadecimal_digits_are_the_sixteen(c: char, n: nat)
    ensures
        n < 16 ==> hexcode::digit_value("0123456789abcdef"@[n as int]) == Some(n),
        n < 16 ==> hexcode::digit_value("0123456789ABCDEF"@[n as int]) == Some(n),
        hexcode::digit_value(c) matches Some(v) ==> v < 16 && (c == "0123456789abcdef"@[v as int]
            || c == "0123456789ABCDEF"@[v as int]),
{
    reveal_strlit("0123456789abcdef");
    reveal_strlit("0123456789ABCDEF");
    if n < 16 {
        lemma_lowercase_digit(n);
    }
    if let Some(v) = hexcode::digit_value(c) {
        lemma_lowercase_digit(v);
    }
}

/// A text is read as bytes exactly where it consists of pairs of digits; each pair stands for
/// one byte, the high digit first.
pub proof fn pairs_of_digits_are_bytes(text: Seq<char>, i: int)
    requires
        0 <= i,
        2 * i + 1 < text.len(),
    ensures
        hexcode::decoded(text) is Some ==> {
            &&& text.len() == 2 * hexcode::decoded(text)->0.len()
            &&& hexcode::digit_value(text[2 * i]) is Some
            &&& hexcode::digit_value(text[2 * i + 1]) is Some
            &&& hexcode::decoded(text)->0[i] == 16 * hexcode::digit_value(text[2 * i])->0
                + hexcode::digit_value(text[2 * i + 1])->0
        },
        text.len() % 2 == 0 && (forall|k: int|
            0 <= k < text.len() ==> hexcode::digit_value(#[trigger] text[k]) is Some)
            ==> hexcode::decoded(text) is Some,
{
    if hexcode::decoded(text) is Some {
        hexadecimal_digits_are_the_sixteen(text[2 * i], 0);
        hexadecimal_digits_are_the_sixteen(text[2 * i + 1], 0);
    }
}

/// An integer below 253 is its own encoding. Any other is a marker for the shortest of the three
/// widths that holds it, and then its little-endian bytes.
pub proof fn varints_are_short(v: nat)
    requires
        v <= u64::MAX,
    ensures
        v <= 252 ==> varint_bytes(v).len() == 1 && varint_bytes(v)[0] == v,
        253 <= v ==> varint_bytes(v)[0] >= 253 && le_value(varint_bytes(v).skip(1)) == v,
        253 <= v <= 0xffff ==> varint_bytes(v).len() == 3 && varint_bytes(v)[0] == 253,
        0x1_0000 <= v <= 0xffff_ffff ==> varint_bytes(v).len() == 5 && varint_bytes(v)[0] == 254,
        0x1_0000_0000 <= v ==> varint_bytes(v).len() == 9 && varint_bytes(v)[0] == 255,
{
    lemma_pow256_8();
    lemma_le_bytes(v, 2);
    lemma_le_bytes(v, 4);
    lemma_le_bytes(v, 8);
    if v <= 252 {
    } else if v <= 0xffff {
        assert(varint_bytes(v).skip(1) =~= le_bytes(v, 2));
    } else if v <= 0xffff_ffff {
        assert(varint_bytes(v).skip(1) =~= le_bytes(v, 4));
    } else {
        assert(varint_bytes(v).skip(1) =~= le_bytes(v, 8));
    }
}

/// An integer is read from the bytes behind its marker, whatever wrote them: one byte below 253,
/// else two, four or eight bytes, the lowest first.
pub proof fn varints_are_read_by_their_marker(data: Seq<u8>, pos: int)
    requires
        0 <= pos < data.len(),
    ensures
        data[pos] <= 252 ==> varint_at(data, pos) == Some((data[pos] as nat, 1nat)),
        data[pos] == 253 && pos + 3 <= data.len() ==> varint_at(data, pos) == Some(
            (le_value(data.subrange(pos + 1, pos + 3)), 3nat),
        ),
        data[pos] == 254 && pos + 5 <= data.len() ==> varint_at(data, pos) == Some(
            (le_value(data.subrange(pos + 1, pos + 5)), 5nat),
        ),
        data[pos] == 255 && pos + 9 <= data.len() ==> varint_at(data, pos) == Some(
            (le_value(data.subrange(pos + 1, pos + 9)), 9nat),
        ),
        varint_at(data, pos) matches Some((v, width)) ==> pos + width <= data.len(),
{
}

/// A byte string stands behind its length.
pub proof fn strings_stand_behind_their_length(data: Seq<u8>)
    requires
        data.len() <= u64::MAX,
    ensures
        varint_at(var_bytes(data), 0) matches Some((len, width)) && len == data.len()
            && var_bytes(data).skip(width as int) == data && var_bytes(data).len() == width + len,
{
    crate::varint::read_of_write(Seq::empty(), data.len(), data);
    assert(Seq::<u8>::empty() + varint_bytes(data.len()) + data =~= var_bytes(data));
    assert(var_bytes(data).skip(varint_bytes(data.len()).len() as int) =~= data);
}

proof fn lemma_first_index_is(a: Seq<char>, c: char, b: Seq<char>)
    requires
        !a.contains(c),
    ensures
        first_index(a, c) == a.len(),
        first_index(a + seq![c] + b, c) == a.len(),
    decreases a.len(),
{
    let s = a + seq![c] + b;
    if a.len() == 0 {
        assert(s[0] == c);
    } else {
        assert(a[0] != c) by {
            assert(a.contains(a[0]));
        }
        let rest = a.drop_first();
        assert(!rest.contains(c)) by {
            if rest.contains(c) {
                let i = choose|i: int| 0 <= i < rest.len() && rest[i] == c;
                assert(a[i + 1] == c);
            }
        }
        lemma_first_index_is(rest, c, b);
        assert(s.drop_first() =~= rest + seq![c] + b);
    }
}

/// A text is parted at the first of the given characters: what stands before it holds none, and
/// what stands behind it may hold more. A text without the character stays whole.
pub proof fn texts_part_at_the_first(a: Seq<char>, c: char, b: Seq<char>)
    requires
        !a.contains(c),
    ensures
        before_first(a + seq![c] + b, c) == a,
        after_first(a + seq![c] + b, c) == b,
        before_first(a, c) == a,
        after_first(a, c) == Seq::<char>::empty(),
{
    lemma_first_index_is(a, c, b);
    assert(before_first(a + seq![c] + b, c) =~= a);
    assert(after_first(a + seq![c] + b, c) =~= b);
    assert(before_first(a, c) =~= a);
}

/// Every `0x` at the front goes, and nothing else does.
pub proof fn only_0x_is_dropped(s: Seq<char>)
    ensures
        without_0x(seq!['0', 'x'] + s) == without_0x(s),
        !(s.len() >= 2 && s[0] == '0' && s[1] == 'x') ==> without_0x(s) == s,
        !(without_0x(s).len() >= 2 && without_0x(s)[0] == '0' && without_0x(s)[1] == 'x'),
    decreases s.len(),
{
    assert((seq!['0', 'x'] + s).skip(2) =~= s);
    if s.len() >= 2 && s[0] == '0' && s[1] == 'x' {
        only_0x_is_dropped(s.skip(2));
    }
}

/// Every slash at the end goes, and nothing else does.
pub proof fn only_final_slashes_are_dropped(s: Seq<char>)
    ensures
        without_final_slashes(s.push('/')) == without_final_slashes(s),
        s.len() == 0 || s.last() != '/' ==> without_final_slashes(s) == s,
        without_final_slashes(s).len() > 0 ==> without_final_slashes(s).last() != '/',
    decreases s.len(),
{
    assert(s.push('/').drop_last() =~= s);
    if s.len() > 0 && s.last() == '/' {
        only_final_slashes_are_dropped(s.drop_last());
    }
}

proof fn lemma_hex_number_of_bytes(text: Seq<char>)
    requires
        hexcode::decoded(text) is Some,
    ensures
        hex_number(text) == Some(be_value(hexcode::decoded(text)->0)),
    decreases text.len(),
{
    let data = hexcode::decoded(text)->0;
    if text.len() > 0 {
        let n = text.len() as int;
        let short = text.drop_last().drop_last();
        assert(short =~= text.take(n - 2));
        assert forall|i: int| 0 <= i < short.len() implies hexcode::digit_value(
            #[trigger] short[i],
        ) is Some by {
            assert(short[i] == text[i]);
        }
        assert(hexcode::decoded(short)->0 =~= data.drop_last());
        lemma_hex_number_of_bytes(short);
        let i = n / 2 - 1;
        assert(2 * i + 1 == n - 1 && 2 * i == n - 2);
        pairs_of_digits_are_bytes(text, i);
        assert(data.last() == data[i]);
        assert(text.last() == text[2 * i + 1]);
        assert(text.drop_last().last() == text[2 * i]);
        let high = hex_number(short)->0;
        let a = hexcode::digit_value(text[2 * i])->0;
        let b = hexcode::digit_value(text[2 * i + 1])->0;
        assert(hex_number(text.drop_last()) == Some((16 * high + a) as nat));
        assert(hex_number(text) == Some((16 * (16 * high + a) + b) as nat));
    } else {
        assert(data.len() == 0);
    }
}

proof fn lemma_leading_zeros(k: nat, s: Seq<char>)
    ensures
        hex_number(Seq::new(k, |i: int| '0') + s) == hex_number(s),
    decreases s.len(), k,
{
    let zeros_text = Seq::new(k, |i: int| '0');
    let t = zeros_text + s;
    if s.len() > 0 {
        lemma_leading_zeros(k, s.drop_last());
        assert(t.drop_last() =~= zeros_text + s.drop_last());
        assert(t.last() == s.last());
    } else if k > 0 {
        let fewer = Seq::new((k - 1) as nat, |i: int| '0');
        lemma_leading_zeros((k - 1) as nat, s);
        assert(t.drop_last() =~= fewer + s);
        assert(t.last() == '0');
    } else {
        assert(t =~= s);
    }
}

/// The digits of a hexadecimal number, filled up with zeros at the front to whole bytes, spell
/// the big-endian bytes of the number. It is read exactly where it is at most `max`.
pub proof fn hexadecimal_numbers_are_their_bytes(digits: Seq<char>, pad: nat, max: nat)
    requires
        digits.len() > 0,
        forall|i: int| 0 <= i < digits.len() ==> hexcode::digit_value(#[trigger] digits[i]) is Some,
        (pad + digits.len()) % 2 == 0,
    ensures
        ({
            let bytes = hexcode::decoded(Seq::new(pad, |i: int| '0') + digits);
            &&& bytes is Some
            &&& be_value(bytes->0) <= max ==> parsed_hex(digits, max) == Some(be_value(bytes->0))
            &&& be_value(bytes->0) > max ==> parsed_hex(digits, max) is None
        }),
        parsed_hex(seq!['+'] + digits, max) == parsed_hex(digits, max),
{
    let text = Seq::new(pad, |i: int| '0') + digits;
    assert forall|i: int| 0 <= i < text.len() implies hexcode::digit_value(
        #[trigger] text[i],
    ) is Some by {
        if i >= pad {
            assert(text[i] == digits[i - pad]);
        }
    }
    lemma_hex_number_of_bytes(text);
    lemma_leading_zeros(pad, digits);
    assert(digits[0] != '+') by {
        assert(hexcode::digit_value(digits[0]) is Some);
    }
    assert((seq!['+'] + digits).drop_first() =~= digits);
}

/// A text with anything but hexadecimal digits in it is no number, and neither is an empty one. One
/// plus sign may stand in front.
pub proof fn other_texts_are_no_numbers(text: Seq<char>, i: int, max: nat)
    requires
        0 <= i < text.len(),
        hexcode::digit_value(text[i]) is None,
        !(i == 0 && text[0] == '+' && text.len() > 1),
    ensures
        parsed_hex(text, max) is None,
        parsed_hex(Seq::empty(), max) is None,
{
    if text[0] == '+' {
        if i > 0 {
            lemma_bad_digit(text.drop_first(), i - 1);
        }
    } else {
        lemma_bad_digit(text, i);
    }
}

proof fn lemma_bad_digit(s: Seq<char>, i: int)
    requires
        0 <= i < s.len(),
        hexcode::digit_value(s[i]) is None,
    ensures
        hex_number(s) is None,
    decreases s.len(),
{
    if i < s.len() - 1 {
        lemma_bad_digit(s.drop_last(), i);
    }
}

/// Every number of 64 bits is read back from its sixteen hexadecimal digits, with or without a
/// `0x` in front, so different numbers are never confused.
pub proof fn written_numbers_are_read_back(n: u64)
    ensures
        ({
            let digits = hexcode::encoded(be_bytes(n as nat, 8));
            &&& digits.len() == 16
            &&& parsed_hex(without_0x(digits), u64::MAX as nat) == Some(n as nat)
            &&& parsed_hex(without_0x(seq!['0', 'x'] + digits), u64::MAX as nat) == Some(n as nat)
        }),
{
    let bytes = be_bytes(n as nat, 8);
    let digits = hexcode::encoded(bytes);
    lemma_pow256_8();
    lemma_be_bytes_value(n as nat, 8);
    hexcode::decode_of_encode(bytes);
    assert(Seq::new(0, |i: int| '0') + digits =~= digits);
    hexadecimal_numbers_are_their_bytes(digits, 0, u64::MAX as nat);
    only_0x_is_dropped(digits);
    assert(hexcode::digit_value(digits[1]) is Some);
    assert(hexcode::digit_value('x') is None);
}

/// Decimal text grows by one digit at a time: behind the text of a number, a digit makes the text
/// of ten times the number and the digit. A single digit is its own text, and a negative number
/// has a minus sign in front.
pub proof fn decimal_text_grows_by_digits(n: nat, d: nat)
    requires
        d < 10,
    ensures
        decimal(d) == seq!["0123456789"@[d as int]],
        n > 0 ==> decimal(10 * n + d) == decimal(n).push("0123456789"@[d as int]),
        signed_decimal(n as int) == decimal(n),
        n > 0 ==> signed_decimal(-(n as int)) == seq!['-'] + decimal(n),
{
    reveal_strlit("0123456789");
    assert(decimal(d) =~= seq!["0123456789"@[d as int]]);
    if n > 0 {
        let m = 10 * n + d;
        assert(m / 10 == n && m % 10 == d && m >= 10);
        assert(decimal(m) =~= decimal(n).push("0123456789"@[d as int]));
    }
}

/// So many zero bytes are so many bytes, and all of them are zero.
pub proof fn zero_bytes_are_zero(n: nat)
    ensures
        zeros(n).len() == n,
        forall|i: int| 0 <= i < n ==> #[trigger] zeros(n)[i] == 0u8,
{
}

} // verus!
