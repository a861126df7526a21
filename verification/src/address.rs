//! Base58 addresses and the scripts that pay to them.

use crate::bytes::{push_range, push_zeros, zeros};
use vstd::prelude::*;

verus! {

/// The place of `c` in the Bitcoin alphabet, which leaves out `0`, `I`, `O` and `l`.
pub open spec fn base58_digit(c: char) -> Option<nat> {
    if '1' <= c <= '9' {
        Some((c as nat - '1' as nat) as nat)
    } else if 'A' <= c <= 'H' {
        Some((c as nat - 'A' as nat + 9) as nat)
    } else if 'J' <= c <= 'N' {
        Some((c as nat - 'J' as nat + 17) as nat)
    } else if 'P' <= c <= 'Z' {
        Some((c as nat - 'P' as nat + 22) as nat)
    } else if 'a' <= c <= 'k' {
        Some((c as nat - 'a' as nat + 33) as nat)
    } else if 'm' <= c <= 'z' {
        Some((c as nat - 'm' as nat + 44) as nat)
    } else {
        None
    }
}

/// The number that a row of base58 digits stands for.
pub open spec fn base58_number(s: Seq<char>) -> Option<nat>
    decreases s.len(),
{
    if s.len() == 0 {
        Some(0)
    } else {
        match (base58_number(s.drop_last()), base58_digit(s.last())) {
            (Some(high), Some(low)) => Some(58 * high + low),
            _ => None,
        }
    }
}

/// How many times the zero digit stands at the start.
pub open spec fn leading_zero_digits(s: Seq<char>) -> nat
    decreases s.len(),
{
    if s.len() > 0 && s[0] == '1' {
        1 + leading_zero_digits(s.drop_first())
    } else {
        0
    }
}

/// `n` in as few big-endian bytes as hold it, none for zero.
pub open spec fn minimal_be(n: nat) -> Seq<u8>
    decreases n,
{
    if n == 0 {
        Seq::empty()
    } else {
        minimal_be(n / 256).push((n % 256) as u8)
    }
}

/// The bytes of a base58 text: a zero byte for each leading zero digit, then the number.
pub open spec fn base58_decoded(s: Seq<char>) -> Option<Seq<u8>> {
    match base58_number(s) {
        Some(n) => Some(zeros(leading_zero_digits(s)) + minimal_be(n)),
        None => None,
    }
}

/// Whether `address` decodes to a version byte and a 20-byte hash, or more.
pub open spec fn valid_address(address: Seq<char>) -> bool {
    match base58_decoded(address) {
        Some(data) => data.len() >= 21,
        None => false,
    }
}

/// The script that pays to the key hash `hash`.
pub open spec fn pay_to_key_hash(hash: Seq<u8>) -> Seq<u8> {
    seq![0x76u8, 0xa9u8, 0x14u8] + hash + seq![0x88u8, 0xacu8]
}

/// The script for `address`: it pays to the key hash behind the version byte. A text that is no
/// address gets 25 zero bytes.
pub open spec fn script_of(address: Seq<char>) -> Seq<u8> {
    if valid_address(address) {
        pay_to_key_hash(base58_decoded(address)->0.subrange(1, 21))
    } else {
        zeros(25)
    }
}

/// Every script has 25 bytes.
pub proof fn script_has_25_bytes(address: Seq<char>)
    ensures
        script_of(address).len() == 25,
{
}

/// Calls `bs58::decode` with the Bitcoin alphabet: the bytes of the text, or nothing where a
/// character is not in the alphabet.
#[verifier::external_body]
fn decode_base58(text: &str) -> (data: Option<Vec<u8>>)
    ensures
        data is Some <==> base58_decoded(text@) is Some,
        data matches Some(d) ==> base58_decoded(text@) == Some(d@),
{
    bs58::decode(text).with_alphabet(bs58::Alphabet::BITCOIN).into_vec().ok()
}

/// Whether `address` decodes to a version byte and a 20-byte hash, or more.
pub fn is_valid_address(address: &str) -> (valid: bool)
    ensures
        valid == valid_address(address@),
        valid <==> base58_decoded(address@) is Some && base58_decoded(address@)->0.len() >= 21,
{
    match decode_base58(address) {
        Some(data) => data.len() >= 21,
        None => false,
    }
}

/// The script that pays to `address`.
pub fn p2pkh_script(address: &str) -> (script: Vec<u8>)
    ensures
        script@ == script_of(address@),
        script@.len() == 25,
        base58_decoded(address@) is Some && base58_decoded(address@)->0.len() >= 21
            ==> script@.subrange(3, 23) == base58_decoded(address@)->0.subrange(1, 21),
{
    let mut script: Vec<u8> = Vec::new();
    match decode_base58(address) {
        Some(data) => {
            if data.len() >= 21 {
                script.push(0x76);
                script.push(0xa9);
                script.push(0x14);
                push_range(&mut script, data.as_slice(), 1, 21);
                script.push(0x88);
                script.push(0xac);
                assert(script@ =~= script_of(address@));
                return script;
            }
        },
        None => {},
    }
    push_zeros(&mut script, 25);
    assert(script@ =~= zeros(25));
    script
}

} // verus!
