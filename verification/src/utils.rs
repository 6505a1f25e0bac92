//! Position hashing and the pair that a table-carrying search hands back.

use vstd::prelude::*;
use crate::algorithms::hashtable::HashTable;
use crate::rules::{position_hash, valid_position, zobrist_of};

verus! {

/// The Zobrist hash of the position `fen_str`.
pub fn zobrish(fen_str: &str) -> (hash: u64)
    requires
        valid_position(fen_str@),
    ensures
        hash == zobrist_of(fen_str@),
{
    position_hash(fen_str)
}

/// The decimal digits of a number in ASCII, the most significant first.
pub open spec fn decimal(n: nat) -> Seq<u8>
    decreases n,
{
    if n < 10 {
        seq![(48 + n) as u8]
    } else {
        decimal(n / 10).push((48 + n % 10) as u8)
    }
}

/// The number that a run of ASCII digits spells.
pub open spec fn digits_value(digits: Seq<u8>) -> nat
    decreases digits.len(),
{
    if digits.len() == 0 {
        0
    } else {
        (digits_value(digits.drop_last()) * 10 + (digits.last() - 48)) as nat
    }
}

/// Whether every byte is an ASCII digit.
pub open spec fn all_digits(digits: Seq<u8>) -> bool {
    forall|i: int| 0 <= i < digits.len() ==> 48 <= #[trigger] digits[i] <= 57
}

/// The hash that a table key spells: the number whose decimal digits the
/// key is, if there is one below 2^64.
pub open spec fn key_hash(digits: Seq<u8>) -> Option<u64> {
    if exists|hash: u64| digits == decimal(hash as nat) {
        Some(choose|hash: u64| digits == decimal(hash as nat))
    } else {
        None
    }
}

/// The digits of a number are digits, spell the number, and begin with a
/// zero only for zero itself.
pub proof fn lemma_decimal_spells(n: nat)
    ensures
        decimal(n).len() >= 1,
        all_digits(decimal(n)),
        digits_value(decimal(n)) == n,
        decimal(n)[0] == 48 ==> n == 0,
        n == 0 ==> decimal(n) == seq![48u8],
    decreases n,
{
    let digits = decimal(n);
    if n < 10 {
        assert(digits.drop_last() =~= Seq::<u8>::empty());
        assert(digits_value(digits.drop_last()) == 0);
        assert(digits.last() == 48 + n);
    } else {
        lemma_decimal_spells(n / 10);
        assert(digits.drop_last() =~= decimal(n / 10));
        assert(digits.last() == 48 + n % 10);
        assert(digits_value(digits) == digits_value(digits.drop_last()) * 10 + (digits.last()
            - 48));
    }
}

/// A hash written as a table key reads back as the same hash: keys are
/// exported and imported without loss.
pub proof fn lemma_key_round_trip(hash: u64)
    ensures
        key_hash(decimal(hash as nat)) == Some(hash),
{
    let other = choose|other: u64| decimal(hash as nat) == decimal(other as nat);
    lemma_decimal_spells(hash as nat);
    lemma_decimal_spells(other as nat);
}

/// Appends the decimal digits of `n` to `out`.
fn push_decimal(n: u64, out: &mut Vec<u8>)
    ensures
        final(out)@ == old(out)@ + decimal(n as nat),
    decreases n,
{
    if n < 10 {
        out.push(48 + n as u8);
    } else {
        push_decimal(n / 10, out);
        out.push(48 + (n % 10) as u8);
    }
}

/// The key under which a hash is written when a table is stored: its
/// decimal digits.
pub fn hash_key(hash: u64) -> (digits: Vec<u8>)
    ensures
        digits@ == decimal(hash as nat),
{
    let mut digits: Vec<u8> = Vec::new();
    push_decimal(hash, &mut digits);
    digits
}

/// Reads a stored key back into a hash. Only what `hash_key` writes is
/// read: decimal digits without sign, space or leading zero, below 2^64.
pub fn parse_hash_key(digits: &Vec<u8>) -> (hash: Option<u64>)
    ensures
        hash == key_hash(digits@),
{
    let ghost text = digits@;
    if digits.len() == 0 || (digits.len() > 1 && digits[0] == 48) {
        proof {
            assert forall|h: u64| text != decimal(h as nat) by {
                lemma_decimal_spells(h as nat);
            }
        }
        return None;
    }
    let mut value: u64 = 0;
    let mut i: usize = 0;
    while i < digits.len()
        invariant
            i <= digits@.len(),
            text == digits@,
            all_digits(text.take(i as int)),
            value == digits_value(text.take(i as int)),
        decreases digits.len() - i,
    {
        let digit = digits[i];
        let ghost longer = text.take(i + 1);
        proof {
            assert(longer.drop_last() =~= text.take(i as int));
            assert(longer.last() == digit);
        }
        if digit < 48 || digit > 57 {
            proof {
                assert forall|h: u64| text != decimal(h as nat) by {
                    lemma_decimal_spells(h as nat);
                }
            }
            return None;
        }
        if value > (u64::MAX - (digit - 48) as u64) / 10 {
            proof {
                assert forall|h: u64| text != decimal(h as nat) by {
                    if text == decimal(h as nat) {
                        lemma_decimal_spells(h as nat);
                        lemma_prefix_value(text, i + 1);
                    }
                }
            }
            return None;
        }
        value = value * 10 + (digit - 48) as u64;
        i = i + 1;
    }
    proof {
        assert(text.take(i as int) =~= text);
        lemma_canonical_is_decimal(text);
        lemma_decimal_spells(value as nat);
        assert forall|h: u64| text == decimal(h as nat) implies h == value by {
            lemma_decimal_spells(h as nat);
        }
    }
    Some(value)
}

/// A prefix of a run of digits spells no more than the whole run.
proof fn lemma_prefix_value(digits: Seq<u8>, n: int)
    requires
        0 <= n <= digits.len(),
        all_digits(digits),
    ensures
        digits_value(digits.take(n)) <= digits_value(digits),
    decreases digits.len() - n,
{
    if n == digits.len() {
        assert(digits.take(n) =~= digits);
    } else {
        lemma_prefix_value(digits, n + 1);
        assert(digits.take(n + 1).drop_last() =~= digits.take(n));
    }
}

/// A run of digits without a leading zero is the decimal form of the number
/// it spells.
proof fn lemma_canonical_is_decimal(digits: Seq<u8>)
    requires
        digits.len() >= 1,
        all_digits(digits),
        digits.len() > 1 ==> digits[0] != 48,
    ensures
        decimal(digits_value(digits)) == digits,
    decreases digits.len(),
{
    let front = digits.drop_last();
    if digits.len() == 1 {
        assert(front =~= Seq::<u8>::empty());
        assert(digits_value(front) == 0);
        assert(digits =~= seq![digits[0]]);
    } else {
        assert(front[0] == digits[0]);
        lemma_canonical_is_decimal(front);
        lemma_leading_digit_counts(front);
        let n = digits_value(digits);
        assert(n / 10 == digits_value(front));
        assert(n % 10 == digits.last() - 48);
        assert(digits =~= front.push(digits.last()));
    }
}

/// A run of digits that does not begin with a zero spells a positive
/// number.
proof fn lemma_leading_digit_counts(digits: Seq<u8>)
    requires
        digits.len() >= 1,
        all_digits(digits),
        digits[0] != 48,
    ensures
        digits_value(digits) >= 1,
    decreases digits.len(),
{
    if digits.len() == 1 {
        assert(digits.drop_last() =~= Seq::<u8>::empty());
    } else {
        assert(digits.drop_last()[0] == digits[0]);
        lemma_leading_digit_counts(digits.drop_last());
    }
}

/// A chosen move together with the table that the search filled.
#[derive(Debug)]
pub struct MoveAndTable {
    pub mov: String,
    pub table: HashTable,
}

impl MoveAndTable {
    pub fn new(mov: String, table: HashTable) -> (pair: MoveAndTable)
        ensures
            pair.mov == mov,
            pair.table == table,
    {
        MoveAndTable { mov, table }
    }
}

} // verus!
