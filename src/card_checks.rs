use vstd::prelude::*;

use crate::text::{is_digit_char, lower_of, same_text, to_lower};
use crate::types::{date_le, CardStatus, Date};

verus! {

/// Whether a card holding `card_balance` can pay `transaction_amount`.
pub fn has_sufficient_balance(card_balance: i32, transaction_amount: i32) -> (r: bool)
    ensures
        r == (card_balance >= transaction_amount),
{
    card_balance >= transaction_amount
}

/// Whether a card in this state may take part in a payment.
pub fn is_card_active(card_status: CardStatus) -> (r: bool)
    ensures
        r == (card_status == CardStatus::Active),
{
    card_status == CardStatus::Active
}

/// Whether a card that expires on `expiration_date` is still good on `today`.
pub fn is_card_not_expired(expiration_date: &Date, today: &Date) -> (r: bool)
    ensures
        r == !date_le(*expiration_date, *today),
{
    !expiration_date.on_or_before(today)
}

/// Whether the text names a card type, in any letter case.
pub fn is_valid_card_type(card_type: &str) -> (r: bool)
    ensures
        r == (lower_of(card_type@) == "debit"@ || lower_of(card_type@) == "credit"@),
{
    let lower = to_lower(card_type);
    same_text(lower.as_str(), "debit") || same_text(lower.as_str(), "credit")
}

/// The ASCII digits of `s`, in order, as numbers; other characters are skipped.
pub open spec fn digits_of(s: Seq<char>) -> Seq<u64>
    decreases s.len(),
{
    if s.len() == 0 {
        Seq::empty()
    } else {
        let c = s.last();
        let rest = digits_of(s.drop_last());
        if is_digit_char(c) {
            rest.push((c as u64 - '0' as u64) as u64)
        } else {
            rest
        }
    }
}

/// What a digit adds to the checksum when it stands `from_right` places from
/// the right end: itself at even places, twice itself reduced mod 9 at odd ones.
pub open spec fn luhn_term(d: u64, from_right: int) -> int {
    if from_right % 2 == 0 {
        d as int
    } else {
        (d as int * 2) % 9
    }
}

/// The checksum of the first `k` digits of `d`.
pub open spec fn luhn_sum(d: Seq<u64>, k: int) -> int
    decreases k,
{
    if k <= 0 {
        0
    } else {
        luhn_sum(d, k - 1) + luhn_term(d[k - 1], d.len() - k)
    }
}

/// A card number passes the checksum: at least 13 digits, and the checksum
/// of all of them is a multiple of 10.
pub open spec fn luhn_valid(s: Seq<char>) -> bool {
    let d = digits_of(s);
    d.len() >= 13 && luhn_sum(d, d.len() as int) % 10 == 0
}

fn collect_digits(s: &str) -> (r: Vec<u64>)
    ensures
        r@ == digits_of(s@),
        forall|i: int| 0 <= i < r@.len() ==> r@[i] <= 9,
{
    let n = s.unicode_len();
    let mut out: Vec<u64> = Vec::new();
    let mut i: usize = 0;
    while i < n
        invariant
            n == s@.len(),
            i <= n,
            out@ == digits_of(s@.take(i as int)),
            forall|j: int| 0 <= j < out@.len() ==> out@[j] <= 9,
        decreases n - i,
    {
        let c = s.get_char(i);
        assert(s@.take(i as int + 1).drop_last() =~= s@.take(i as int));
        if '0' <= c && c <= '9' {
            out.push((c as u64) - ('0' as u64));
        }
        i = i + 1;
    }
    assert(s@.take(n as int) =~= s@);
    out
}

/// Whether `card_number` passes the card checksum (see `luhn_valid`).
pub fn is_valid_card_number(card_number: &str) -> (r: bool)
    ensures
        r == luhn_valid(card_number@),
{
    let digits = collect_digits(card_number);
    let n = digits.len();
    if n < 13 {
        return false;
    }
    let mut acc: u64 = 0;
    let mut i: usize = 0;
    while i < n
        invariant
            n == digits@.len(),
            i <= n,
            acc < 10,
            acc as int == luhn_sum(digits@, i as int) % 10,
            forall|j: int| 0 <= j < digits@.len() ==> digits@[j] <= 9,
        decreases n - i,
    {
        let d = digits[i];
        let from_right = n - 1 - i;
        let term: u64 = if from_right % 2 == 0 {
            d
        } else {
            d * 2 % 9
        };
        assert(term as int == luhn_term(d, from_right as int));
        proof {
            vstd::arithmetic::div_mod::lemma_add_mod_noop(
                luhn_sum(digits@, i as int),
                term as int,
                10,
            );
        }
        acc = (acc + term) % 10;
        i = i + 1;
    }
    acc == 0
}

proof fn lemma_luhn_sum_update(d: Seq<u64>, p: int, v: u64, k: int)
    requires
        0 <= p < d.len(),
        0 <= k <= d.len(),
    ensures
        luhn_sum(d.update(p, v), k) == luhn_sum(d, k) + if p < k {
            luhn_term(v, d.len() - 1 - p) - luhn_term(d[p], d.len() - 1 - p)
        } else {
            0
        },
    decreases k,
{
    if k > 0 {
        lemma_luhn_sum_update(d, p, v, k - 1);
    }
}

/// A digit stands at a doubled place and the change swaps 0 and 9 there:
/// the one single-digit change the checksum cannot see, as 2 * 0 and 2 * 9
/// are both 0 mod 9.
pub open spec fn blind_change(d: Seq<u64>, p: int, v: u64) -> bool {
    (d.len() - 1 - p) % 2 == 1 && ((d[p] == 0 && v == 9) || (d[p] == 9 && v == 0))
}

/// Changing one digit of a digit sequence that passes the checksum makes it
/// fail, unless the change is a 0/9 swap at a doubled place.
pub proof fn lemma_single_digit_change_detected(d: Seq<u64>, p: int, v: u64)
    requires
        forall|i: int| 0 <= i < d.len() ==> d[i] <= 9,
        0 <= p < d.len(),
        v <= 9,
        v != d[p],
        !blind_change(d, p, v),
        luhn_sum(d, d.len() as int) % 10 == 0,
    ensures
        luhn_sum(d.update(p, v), d.len() as int) % 10 != 0,
{
    lemma_luhn_sum_update(d, p, v, d.len() as int);
    let a = d[p];
    let t = luhn_term(v, d.len() - 1 - p) - luhn_term(a, d.len() - 1 - p);
    assert(t != 0 && -10 < t < 10) by {
        if (d.len() - 1 - p) % 2 == 1 {
            assert(0 <= (v as int * 2) % 9 < 9);
            assert(0 <= (a as int * 2) % 9 < 9);
            assert((v as int * 2) % 9 != (a as int * 2) % 9) by {
                assert(a <= 9);
                if a == 0 { assert(v != 9); }
                if a == 9 { assert(v != 0); }
            }
        }
    }
    let s = luhn_sum(d, d.len() as int);
    assert((s + t) % 10 != 0) by {
        vstd::arithmetic::div_mod::lemma_add_mod_noop(s, t, 10);
    }
}

} // verus!
