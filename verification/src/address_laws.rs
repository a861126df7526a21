//! What addresses are, and whom they pay.

use crate::address::{
    base58_decoded, base58_digit, base58_number, leading_zero_digits, minimal_be, script_of,
    valid_address,
};
use crate::bytes::{be_value, lemma_be_concat, lemma_be_zeros, zeros};
use vstd::prelude::*;

verus! {

/// The digits of base 58 in the order of their value.
pub open spec fn base58_alphabet() -> Seq<char> {
    "123456789ABCDEFGHJKLMNPQRSTUVWXYZabcdefghijkmnopqrstuvwxyz"@
}

/// A number in base 58, without leading zeros.
pub open spec fn base58_digits(n: nat) -> Seq<char>
    decreases n,
{
    if n == 0 {
        Seq::empty()
    } else {
        base58_digits(n / 58).push(base58_alphabet()[(n % 58) as int])
    }
}

/// How many zero bytes stand in front.
pub open spec fn leading_zero_bytes(data: Seq<u8>) -> nat
    decreases data.len(),
{
    if data.len() > 0 && data[0] == 0 {
        1 + leading_zero_bytes(data.drop_first())
    } else {
        0
    }
}

/// The base58 form of bytes: a zero digit for each leading zero byte, then the big-endian number.
pub open spec fn base58_text(data: Seq<u8>) -> Seq<char> {
    Seq::new(leading_zero_bytes(data), |i: int| '1') + base58_digits(be_value(data))
}

proof fn lemma_alphabet(i: int)
    requires
        0 <= i < 58,
    ensures
        base58_alphabet().len() == 58,
        base58_digit(base58_alphabet()[i]) == Some(i as nat),
        base58_alphabet()[i] != '.',
        base58_alphabet()[i] == '1' <==> i == 0,
{
    reveal_strlit("123456789ABCDEFGHJKLMNPQRSTUVWXYZabcdefghijkmnopqrstuvwxyz");
}

/// Exactly the 58 characters of the alphabet are digits, each with its place as its value.
pub proof fn base58_digits_are_the_alphabet(c: char, i: int)
    ensures
        0 <= i < 58 ==> base58_digit(base58_alphabet()[i]) == Some(i as nat),
        base58_digit(c) matches Some(v) ==> v < 58 && c == base58_alphabet()[v as int],
{
    reveal_strlit("123456789ABCDEFGHJKLMNPQRSTUVWXYZabcdefghijkmnopqrstuvwxyz");
    if 0 <= i < 58 {
        lemma_alphabet(i);
    }
    if let Some(v) = base58_digit(c) {
        assert(v < 58);
        lemma_alphabet(v as int);
    }
}

proof fn lemma_digits(n: nat)
    ensures
        base58_number(base58_digits(n)) == Some(n),
        n > 0 ==> base58_digits(n).len() > 0 && base58_digits(n)[0] != '1',
        !base58_digits(n).contains('.'),
    decreases n,
{
    if n > 0 {
        lemma_digits(n / 58);
        let high = base58_digits(n / 58);
        let c = base58_alphabet()[(n % 58) as int];
        let s = base58_digits(n);
        lemma_alphabet((n % 58) as int);
        assert(s.drop_last() =~= high);
        assert(s.last() == c);
        assert(58 * (n / 58) + n % 58 == n);
        if n / 58 == 0 {
            assert(s[0] == c);
            assert(n % 58 == n);
        } else {
            assert(s[0] == high[0]);
        }
        assert forall|i: int| 0 <= i < s.len() implies s[i] != '.' by {
            if i < high.len() {
                assert(s[i] == high[i]);
                assert(high.contains(high[i]));
            }
        }
    }
}

proof fn lemma_ones(k: nat, s: Seq<char>)
    ensures
        base58_number(Seq::new(k, |i: int| '1') + s) == base58_number(s),
    decreases s.len(), k,
{
    let ones = Seq::new(k, |i: int| '1');
    let t = ones + s;
    if s.len() > 0 {
        lemma_ones(k, s.drop_last());
        assert(t.drop_last() =~= ones + s.drop_last());
        assert(t.last() == s.last());
    } else if k > 0 {
        lemma_ones((k - 1) as nat, s);
        assert(t.drop_last() =~= Seq::new((k - 1) as nat, |i: int| '1') + s);
        assert(t.last() == '1');
        assert(base58_digit('1') == Some(0nat));
    } else {
        assert(t =~= s);
    }
}

proof fn lemma_count_ones(k: nat, s: Seq<char>)
    requires
        s.len() > 0 ==> s[0] != '1',
    ensures
        leading_zero_digits(Seq::new(k, |i: int| '1') + s) == k,
    decreases k,
{
    let t = Seq::new(k, |i: int| '1') + s;
    if k > 0 {
        lemma_count_ones((k - 1) as nat, s);
        assert(t.drop_first() =~= Seq::new((k - 1) as nat, |i: int| '1') + s);
    } else {
        assert(t =~= s);
    }
}

proof fn lemma_minimal_be(rest: Seq<u8>)
    requires
        rest.len() > 0 ==> rest[0] != 0,
    ensures
        minimal_be(be_value(rest)) == rest,
        rest.len() > 0 ==> be_value(rest) > 0,
    decreases rest.len(),
{
    if rest.len() > 0 {
        let front = rest.drop_last();
        lemma_minimal_be(front);
        let n = be_value(rest);
        assert(n / 256 == be_value(front));
        assert(n % 256 == rest.last() as nat);
        if front.len() == 0 {
            assert(rest.last() == rest[0]);
        }
        assert(n > 0);
        assert(minimal_be(n) =~= rest);
    } else {
        assert(rest =~= Seq::<u8>::empty());
    }
}

proof fn lemma_leading_zero_bytes(data: Seq<u8>)
    ensures
        ({
            let k = leading_zero_bytes(data);
            &&& k <= data.len()
            &&& data.take(k as int) == zeros(k)
            &&& k < data.len() ==> data[k as int] != 0
        }),
    decreases data.len(),
{
    let k = leading_zero_bytes(data);
    if data.len() > 0 && data[0] == 0 {
        let rest = data.drop_first();
        lemma_leading_zero_bytes(rest);
        let j = leading_zero_bytes(rest);
        assert forall|i: int| 0 <= i < k implies data[i] == 0 by {
            if i > 0 {
                assert(data[i] == rest[i - 1]);
                assert(rest.take(j as int)[i - 1] == zeros(j)[i - 1]);
            }
        }
        if k < data.len() {
            assert(data[k as int] == rest[j as int]);
        }
    }
    assert(data.take(k as int) =~= zeros(k));
}

/// The bytes of any base58 form are those it was made from.
pub proof fn base58_forms_read_back(data: Seq<u8>)
    ensures
        base58_decoded(base58_text(data)) == Some(data),
        !base58_text(data).contains('.'),
{
    let k = leading_zero_bytes(data);
    lemma_leading_zero_bytes(data);
    let rest = data.skip(k as int);
    assert(data =~= zeros(k) + rest);
    lemma_be_concat(zeros(k), rest);
    lemma_be_zeros(k);
    let p = crate::bytes::pow256(rest.len()) as int;
    assert(0 * p == 0);
    let n = be_value(data);
    assert(n == be_value(rest));
    lemma_minimal_be(rest);
    lemma_digits(n);
    let ones = Seq::new(k, |i: int| '1');
    let digits = base58_digits(n);
    lemma_ones(k, digits);
    assert(n == 0 ==> digits.len() == 0);
    lemma_count_ones(k, digits);
    let t = base58_text(data);
    assert forall|i: int| 0 <= i < t.len() implies t[i] != '.' by {
        if i >= k {
            assert(t[i] == digits[i - k]);
            assert(digits.contains(digits[i - k]));
        }
    }
}

/// A text with a character that is no base58 digit stands for no bytes.
pub proof fn other_characters_make_no_address(text: Seq<char>, i: int)
    requires
        0 <= i < text.len(),
        base58_digit(text[i]) is None,
    ensures
        base58_decoded(text) is None,
        !valid_address(text),
        script_of(text) == zeros(25),
{
    lemma_bad_base58(text, i);
}

proof fn lemma_bad_base58(s: Seq<char>, i: int)
    requires
        0 <= i < s.len(),
        base58_digit(s[i]) is None,
    ensures
        base58_number(s) is None,
    decreases s.len(),
{
    if i < s.len() - 1 {
        lemma_bad_base58(s.drop_last(), i);
    }
}

/// Whether an address is valid depends only on how many bytes it stands for: 21 are enough. Its
/// script pays to the bytes behind the first one, whatever that one is and whatever follows.
pub proof fn addresses_of_any_version_are_paid(
    version: u8,
    key_hash: Seq<u8>,
    checksum: Seq<u8>,
    short: Seq<u8>,
)
    requires
        key_hash.len() == 20,
        short.len() < 21,
    ensures
        ({
            let address = base58_text(seq![version] + key_hash + checksum);
            &&& valid_address(address)
            &&& script_of(address) == seq![0x76u8, 0xa9u8, 20u8] + key_hash + seq![
                0x88u8,
                0xacu8,
            ]
        }),
        !valid_address(base58_text(short)),
        script_of(base58_text(short)) == zeros(25),
{
    let data = seq![version] + key_hash + checksum;
    base58_forms_read_back(data);
    base58_forms_read_back(short);
    assert(data.subrange(1, 21) =~= key_hash);
    assert(script_of(base58_text(data)) =~= seq![0x76u8, 0xa9u8, 20u8] + key_hash + seq![
        0x88u8,
        0xacu8,
    ]);
}

/// Of any text that stands for 21 bytes or more, the script pays to the bytes from the second to
/// the twenty-first.
pub proof fn long_enough_texts_are_addresses(address: Seq<char>, data: Seq<u8>)
    requires
        base58_decoded(address) == Some(data),
    ensures
        valid_address(address) <==> data.len() >= 21,
        data.len() >= 21 ==> script_of(address).len() == 25 && forall|i: int|
            0 <= i < 20 ==> #[trigger] script_of(address)[3 + i] == data[1 + i],
        data.len() >= 21 ==> script_of(address).take(3) == seq![0x76u8, 0xa9u8, 20u8]
            && script_of(address).skip(23) == seq![0x88u8, 0xacu8],
{
    if data.len() >= 21 {
        assert(script_of(address).take(3) =~= seq![0x76u8, 0xa9u8, 20u8]);
        assert(script_of(address).skip(23) =~= seq![0x88u8, 0xacu8]);
    }
}

} // verus!
