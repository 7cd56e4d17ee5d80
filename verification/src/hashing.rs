//! The hash that places keys on the ring. Every peer computes it the same
//! way, so a key has one position wherever it is looked up.

use crate::ring::on_ring;
use std::collections::hash_map::DefaultHasher;
use std::hash::Hash;
use std::hash::Hasher;
use vstd::prelude::*;
use vstd::std_specs::hash::DefaultHasherAdditionalSpecFns;

verus! {

/// The writes that hashing a string performs on a hasher. They depend on the
/// string alone.
pub uninterp spec fn str_hash_writes(key: Seq<char>) -> Seq<Seq<u8>>;

/// The digest of a string key: what the default hasher yields after the
/// string, and nothing else, was hashed into it.
pub open spec fn spec_hash_key(key: Seq<char>) -> u64 {
    DefaultHasher::spec_finish(str_hash_writes(key))
}

/// The decimal digit for `d`, which is below ten.
pub open spec fn spec_digit(d: nat) -> char {
    if d == 0 {
        '0'
    } else if d == 1 {
        '1'
    } else if d == 2 {
        '2'
    } else if d == 3 {
        '3'
    } else if d == 4 {
        '4'
    } else if d == 5 {
        '5'
    } else if d == 6 {
        '6'
    } else if d == 7 {
        '7'
    } else if d == 8 {
        '8'
    } else {
        '9'
    }
}

/// The decimal digits of `n`, most significant first, without leading zeros.
pub open spec fn spec_digits(n: nat) -> Seq<char>
    decreases n,
{
    if n < 10 {
        seq![spec_digit(n)]
    } else {
        spec_digits(n / 10).push(spec_digit(n % 10))
    }
}

/// The decimal text of an integer: a minus sign for a negative one, then its
/// digits.
pub open spec fn spec_decimal(k: int) -> Seq<char> {
    if k < 0 {
        seq!['-'] + spec_digits((-k) as nat)
    } else {
        spec_digits(k as nat)
    }
}

/// The ring position of an integer key: the digest of its decimal text,
/// reduced modulo the ring size.
pub open spec fn spec_key_position(key: int) -> int {
    spec_hash_key(spec_decimal(key)) as int % 1024
}

/// Calls `<str as Hash>::hash` on a default hasher. Claimed: the call appends
/// to the hasher's record of writes a sequence of writes that is a function
/// of the string's characters alone.
#[verifier::external_body]
fn feed_str(state: &mut DefaultHasher, key: &str)
    ensures
        final(state)@ == old(state)@ + str_hash_writes(key@),
{
    key.hash(state);
}

/// Calls `String::push`. Claimed: the character is appended to the text.
#[verifier::external_body]
fn push_char(text: &mut String, c: char)
    ensures
        final(text)@ == old(text)@.push(c),
{
    text.push(c);
}

/// The decimal digit for `d`.
fn digit_char(d: u32) -> (c: char)
    requires
        d < 10,
    ensures
        c == spec_digit(d as nat),
{
    if d == 0 {
        '0'
    } else if d == 1 {
        '1'
    } else if d == 2 {
        '2'
    } else if d == 3 {
        '3'
    } else if d == 4 {
        '4'
    } else if d == 5 {
        '5'
    } else if d == 6 {
        '6'
    } else if d == 7 {
        '7'
    } else if d == 8 {
        '8'
    } else {
        '9'
    }
}

/// Appends the decimal digits of `n` to `text`.
fn push_digits(text: &mut String, n: u32)
    ensures
        final(text)@ == old(text)@ + spec_digits(n as nat),
    decreases n,
{
    if n >= 10 {
        push_digits(text, n / 10);
    }
    push_char(text, digit_char(n % 10));
    assert(text@ =~= old(text)@ + spec_digits(n as nat));
}

/// The decimal text of an integer.
pub fn decimal_text(key: i32) -> (text: String)
    ensures
        text@ == spec_decimal(key as int),
{
    let mut text = String::new();
    if key < 0 {
        push_char(&mut text, '-');
        let magnitude: u32 = (-(key as i64)) as u32;
        push_digits(&mut text, magnitude);
    } else {
        push_digits(&mut text, key as u32);
    }
    assert(text@ =~= spec_decimal(key as int));
    text
}

/// Digest of a string key.
pub fn hash_key(key: &str) -> (h: u64)
    ensures
        h == spec_hash_key(key@),
{
    let mut hasher = DefaultHasher::new();
    feed_str(&mut hasher, key);
    assert(hasher@ =~= str_hash_writes(key@));
    hasher.finish()
}

/// Reduces a digest to a ring position.
pub fn position_of_hash(h: u64) -> (pos: i32)
    ensures
        pos == h as int % 1024,
        on_ring(pos as int),
{
    (h % 1024) as i32
}

/// The id that a node takes from its public address: the digest of the
/// address, reduced to a ring position.
pub fn node_id_for_address(address: &str) -> (id: i32)
    ensures
        id == spec_hash_key(address@) as int % 1024,
        on_ring(id as int),
{
    position_of_hash(hash_key(address))
}

/// Ring position of an integer key.
pub fn key_position(key: i32) -> (pos: i32)
    ensures
        pos == spec_key_position(key as int),
        on_ring(pos as int),
{
    let text = decimal_text(key);
    position_of_hash(hash_key(text.as_str()))
}

} // verus!
