//! Identifiers: UUIDs (held as their 128-bit value), random endpoint and
//! document ids, and decimal text of indices.
use std::hash::BuildHasher;
use std::hash::RandomState;
use uuid::Uuid;
use vstd::prelude::*;

verus! {

/// The lower-case hexadecimal digit for a value below 16.
pub open spec fn hex_char(d: nat) -> char {
    if d < 10 { digit_char(d) }
    else if d == 10 { 'a' }
    else if d == 11 { 'b' }
    else if d == 12 { 'c' }
    else if d == 13 { 'd' }
    else if d == 14 { 'e' }
    else { 'f' }
}

/// The last `count` lower-case hexadecimal digits of `n`, most significant
/// first, padded with zeros.
pub open spec fn hex_digits(n: nat, count: nat) -> Seq<char>
    decreases count,
{
    if count == 0 {
        Seq::empty()
    } else {
        hex_digits(n / 16, (count - 1) as nat).push(hex_char(n % 16))
    }
}

/// The hyphenated form of the UUID with this 128-bit value: its 32
/// lower-case hexadecimal digits, most significant first, in groups of 8, 4,
/// 4, 4 and 12 joined by hyphens.
pub open spec fn uuid_text(id: u128) -> Seq<char> {
    let h = hex_digits(id as nat, 32);
    h.subrange(0, 8) + "-"@ + h.subrange(8, 12) + "-"@ + h.subrange(12, 16) + "-"@ + h.subrange(16, 20) + "-"@
        + h.subrange(20, 32)
}

/// What `uuid::Uuid::parse_str` gives for a text, as a 128-bit value.
pub uninterp spec fn uuid_parse(text: Seq<char>) -> Option<u128>;

/// Decimal digits of a natural number, most significant first.
pub open spec fn decimal(n: nat) -> Seq<char>
    decreases n,
{
    if n < 10 {
        seq![digit_char(n)]
    } else {
        decimal(n / 10).push(digit_char(n % 10))
    }
}

/// The character of a decimal digit.
pub open spec fn digit_char(d: nat) -> char {
    if d == 0 { '0' }
    else if d == 1 { '1' }
    else if d == 2 { '2' }
    else if d == 3 { '3' }
    else if d == 4 { '4' }
    else if d == 5 { '5' }
    else if d == 6 { '6' }
    else if d == 7 { '7' }
    else if d == 8 { '8' }
    else { '9' }
}

/// `uuid::Uuid::new_v4`, as a 128-bit value. The value is random: nothing is
/// claimed of it.
#[verifier::external_body]
pub fn new_uuid() -> u128 {
    Uuid::new_v4().as_u128()
}

/// `uuid::Uuid::parse_str`, as a 128-bit value. Claimed: the result is the
/// named parse result of the text.
#[verifier::external_body]
pub fn parse_uuid(text: &str) -> (id: Option<u128>)
    ensures
        id == uuid_parse(text@),
{
    match Uuid::parse_str(text) {
        Ok(uuid) => Some(uuid.as_u128()),
        Err(_) => None,
    }
}

/// `Display` of `uuid::Uuid` for a 128-bit value. Claimed: the result is
/// the hyphenated lower-case form (the bytes of `from_u128` are the value's
/// big-endian bytes), and `parse_str` reads it back,
/// as the crate documents ("any of the formats generated by this module
/// are supported by this parsing function").
#[verifier::external_body]
pub fn uuid_to_string(id: u128) -> (text: String)
    ensures
        text@ == uuid_text(id),
        uuid_parse(text@) == Some(id),
{
    Uuid::from_u128(id).to_string()
}

/// The text of a single decimal digit.
fn digit_text(d: usize) -> (text: String)
    requires
        d < 10,
    ensures
        text@ == seq![digit_char(d as nat)],
{
    let text = if d == 0 {
        proof { reveal_strlit("0"); }
        "0".to_owned()
    } else if d == 1 {
        proof { reveal_strlit("1"); }
        "1".to_owned()
    } else if d == 2 {
        proof { reveal_strlit("2"); }
        "2".to_owned()
    } else if d == 3 {
        proof { reveal_strlit("3"); }
        "3".to_owned()
    } else if d == 4 {
        proof { reveal_strlit("4"); }
        "4".to_owned()
    } else if d == 5 {
        proof { reveal_strlit("5"); }
        "5".to_owned()
    } else if d == 6 {
        proof { reveal_strlit("6"); }
        "6".to_owned()
    } else if d == 7 {
        proof { reveal_strlit("7"); }
        "7".to_owned()
    } else if d == 8 {
        proof { reveal_strlit("8"); }
        "8".to_owned()
    } else {
        proof { reveal_strlit("9"); }
        "9".to_owned()
    };
    assert(text@ =~= seq![digit_char(d as nat)]);
    text
}

/// The decimal digits of `n`, most significant first.
pub fn decimal_string(n: usize) -> (text: String)
    ensures
        text@ == decimal(n as nat),
    decreases n,
{
    if n < 10 {
        digit_text(n)
    } else {
        let mut text = decimal_string(n / 10);
        let last = digit_text(n % 10);
        text.append(last.as_str());
        assert(text@ =~= decimal((n / 10) as nat).push(digit_char((n % 10) as nat)));
        text
    }
}

/// `first` followed by `second`.
pub fn concat(first: &str, second: &str) -> (text: String)
    ensures
        text@ == first@ + second@,
{
    let mut text = first.to_owned();
    text.append(second);
    text
}

/// `std::hash::RandomState::new`: a hasher state with fresh random keys.
#[verifier::external_body]
fn random_state() -> RandomState {
    RandomState::new()
}

/// `BuildHasher::hash_one` of the unit value under a hasher state. The keys
/// are random, so nothing is claimed of the result.
#[verifier::external_body]
fn hash_unit(state: &RandomState) -> u64 {
    state.hash_one(())
}

/// A random 64-bit value: the hash of the unit value under fresh random keys.
pub fn random_u64() -> u64 {
    let state = random_state();
    hash_unit(&state)
}

} // verus!
