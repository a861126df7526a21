//! Hexadecimal text, as the `hex` crate writes and reads it.

use vstd::prelude::*;

verus! {

/// The value of a hexadecimal digit, in either case.
pub open spec fn digit_value(c: char) -> Option<nat> {
    if '0' <= c <= '9' {
        Some((c as nat - '0' as nat) as nat)
    } else if 'a' <= c <= 'f' {
        Some((c as nat - 'a' as nat + 10) as nat)
    } else if 'A' <= c <= 'F' {
        Some((c as nat - 'A' as nat + 10) as nat)
    } else {
        None
    }
}

/// The lowercase digit of a value below sixteen.
pub open spec fn digit(n: nat) -> char {
    if n < 10 {
        ('0' as nat + n) as char
    } else {
        ('a' as nat + n - 10) as char
    }
}

/// Two lowercase digits per byte, the high one first.
pub open spec fn encoded(data: Seq<u8>) -> Seq<char> {
    Seq::new(
        2 * data.len(),
        |i: int|
            if i % 2 == 0 {
                digit((data[i / 2] / 16) as nat)
            } else {
                digit((data[i / 2] % 16) as nat)
            },
    )
}

/// The bytes that `text` spells, unless its length is odd or a character is no digit.
pub open spec fn decoded(text: Seq<char>) -> Option<Seq<u8>> {
    if text.len() % 2 == 0 && forall|i: int| 0 <= i < text.len() ==> digit_value(text[i]) is Some {
        Some(
            Seq::new(
                text.len() / 2,
                |i: int|
                    (16 * digit_value(text[2 * i])->0 + digit_value(text[2 * i + 1])->0) as u8,
            ),
        )
    } else {
        None
    }
}

/// Reading back what was written gives the bytes that were written.
pub proof fn decode_of_encode(data: Seq<u8>)
    ensures
        decoded(encoded(data)) == Some(data),
{
    let text = encoded(data);
    assert forall|i: int| 0 <= i < text.len() implies digit_value(#[trigger] text[i]) is Some by {
        assert(0 <= data[i / 2] / 16 < 16);
        assert(0 <= data[i / 2] % 16 < 16);
    }
    let back = decoded(text)->0;
    assert forall|i: int| 0 <= i < data.len() implies back[i] == data[i] by {
        let b = data[i];
        assert((2 * i) / 2 == i && (2 * i + 1) / 2 == i);
        assert((2 * i) % 2 == 0 && (2 * i + 1) % 2 == 1);
        assert(text[2 * i] == digit((b / 16) as nat));
        assert(text[2 * i + 1] == digit((b % 16) as nat));
        assert(digit_value(digit((b / 16) as nat)) == Some((b / 16) as nat));
        assert(digit_value(digit((b % 16) as nat)) == Some((b % 16) as nat));
    }
    assert(back =~= data);
}

/// Calls `hex::encode`: two lowercase digits for each byte, the high one first.
#[verifier::external_body]
pub(crate) fn encode(data: &[u8]) -> (text: String)
    ensures
        text@ == encoded(data@),
{
    hex::encode(data)
}

/// Calls `hex::decode`: the bytes that the digits spell, in either case; nothing for an odd
/// number of digits or for a character that is no digit.
#[verifier::external_body]
pub(crate) fn decode(text: &str) -> (data: Option<Vec<u8>>)
    ensures
        data is Some <==> decoded(text@) is Some,
        data matches Some(d) ==> decoded(text@) == Some(d@),
{
    hex::decode(text).ok()
}

} // verus!
