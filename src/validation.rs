use vstd::prelude::*;
use vstd::string::{StrSliceExecFns, StringExecFns, StringSliceAdditionalSpecFns};

use crate::card_checks::{is_valid_card_number, luhn_valid};
use crate::text::{all_digits, is_digits_of_len, same_text, trim_text, trimmed};
use crate::types::{date_le, Date};

verus! {

/// The verdict of one field check: accepted, or rejected with a reason.
#[derive(Debug, Clone, PartialEq, Eq)]
pub struct ValidationResult {
    pub is_valid: bool,
    pub error_message: Option<String>,
}

/// `r` accepts the value and carries no reason.
pub open spec fn accepted(r: ValidationResult) -> bool {
    r.is_valid && r.error_message is None
}

/// `r` rejects the value with the reason `msg`.
pub open spec fn rejected_with(r: ValidationResult, msg: Seq<char>) -> bool {
    !r.is_valid && r.error_message is Some && r.error_message->0@ == msg
}

/// `r` is the verdict of a check whose rule is `ok` and whose reason is `msg`.
pub open spec fn verdict(r: ValidationResult, ok: bool, msg: Seq<char>) -> bool {
    if ok {
        accepted(r)
    } else {
        rejected_with(r, msg)
    }
}

fn pass() -> (r: ValidationResult)
    ensures
        accepted(r),
{
    ValidationResult { is_valid: true, error_message: None }
}

fn fail(msg: &str) -> (r: ValidationResult)
    ensures
        rejected_with(r, msg@),
{
    ValidationResult { is_valid: false, error_message: Some(String::from_str(msg)) }
}

/// Runs `validator` on `value`: the value back when it is accepted, the
/// verdict when it is rejected.
pub fn validate_input<T, F>(value: T, validator: F) -> (r: Result<T, ValidationResult>)
    where
        F: FnOnce(&T) -> ValidationResult,
    requires
        validator.requires((&value,)),
    ensures
        match r {
            Ok(v) => v == value && exists|res: ValidationResult|
                validator.ensures((&value,), res) && res.is_valid,
            Err(e) => validator.ensures((&value,), e) && !e.is_valid,
        },
{
    let validation_result = validator(&value);
    if validation_result.is_valid {
        Ok(value)
    } else {
        Err(validation_result)
    }
}

/// Whether `text` holds a match of the regular expression `pattern`, as the
/// `regex` crate reads both.
pub uninterp spec fn regex_accepts(pattern: Seq<char>, text: Seq<char>) -> bool;

/// Relies on `regex::Regex::new` and `regex::Regex::is_match`: the pattern is
/// compiled and searched for in the text; a pattern that does not compile
/// matches nothing.
#[verifier::external_body]
fn pattern_matches(pattern: &str, text: &str) -> (r: bool)
    ensures
        r == regex_accepts(pattern@, text@),
{
    match regex::Regex::new(pattern) {
        Ok(re) => re.is_match(text),
        Err(_) => false,
    }
}

/// The shape an e-mail address must have.
pub open spec fn email_ok(s: Seq<char>) -> bool {
    regex_accepts(r"^[A-Za-z0-9._%+-]+@[A-Za-z0-9.-]+\.[A-Za-z]{2,}$"@, s)
}

/// The shape a phone number must have: `+`, then 2 to 15 digits, the first
/// not zero.
pub open spec fn phone_ok(s: Seq<char>) -> bool {
    regex_accepts(r"^\+[1-9]\d{1,14}$"@, s)
}

pub fn validate_email(email: &str) -> (r: ValidationResult)
    ensures
        verdict(r, email_ok(email@), "Invalid email format."@),
{
    if pattern_matches(r"^[A-Za-z0-9._%+-]+@[A-Za-z0-9.-]+\.[A-Za-z]{2,}$", email) {
        pass()
    } else {
        fail("Invalid email format.")
    }
}

pub fn validate_phone_number(phone_number: &str) -> (r: ValidationResult)
    ensures
        verdict(r, phone_ok(phone_number@), "Invalid phone number format."@),
{
    if pattern_matches(r"^\+[1-9]\d{1,14}$", phone_number) {
        pass()
    } else {
        fail("Invalid phone number format.")
    }
}

/// A customer identity number: exactly 10 ASCII digits.
pub open spec fn cic_ok(s: Seq<char>) -> bool {
    s.len() == 10 && all_digits(s)
}

pub fn validate_cic_number(cic_number: &str) -> (r: ValidationResult)
    ensures
        verdict(r, cic_ok(cic_number@), "Invalid CIC number format or length."@),
{
    if is_digits_of_len(cic_number, 10) {
        pass()
    } else {
        fail("Invalid CIC number format or length.")
    }
}

pub fn validate_customer_name(customer_name: &str) -> (r: ValidationResult)
    ensures
        trimmed(customer_name@).len() == 0 ==> rejected_with(
            r,
            "Customer name cannot be empty."@,
        ),
        trimmed(customer_name@).len() != 0 && customer_name@.len() > 100 ==> rejected_with(
            r,
            "Customer name cannot exceed 100 characters."@,
        ),
        trimmed(customer_name@).len() != 0 && customer_name@.len() <= 100 ==> accepted(r),
{
    if trim_text(customer_name).is_empty() {
        fail("Customer name cannot be empty.")
    } else if customer_name.unicode_len() > 100 {
        fail("Customer name cannot exceed 100 characters.")
    } else {
        pass()
    }
}

/// An account number takes 6 to 20 bytes in UTF-8.
pub open spec fn account_number_ok(s: &str) -> bool {
    6 <= s.spec_bytes().len() <= 20
}

pub fn validate_account_number(account_number: &str) -> (r: ValidationResult)
    ensures
        verdict(
            r,
            account_number_ok(account_number),
            "Invalid account number format or length."@,
        ),
{
    let n = account_number.as_bytes_vec().len();
    if n >= 6 && n <= 20 {
        pass()
    } else {
        fail("Invalid account number format or length.")
    }
}

pub fn validate_account_balance(balance: i32) -> (r: ValidationResult)
    ensures
        verdict(r, balance >= 0, "Account balance cannot be negative."@),
{
    if balance >= 0 {
        pass()
    } else {
        fail("Account balance cannot be negative.")
    }
}

/// A card number: exactly 16 ASCII digits that pass the card checksum.
pub open spec fn card_number_ok(s: Seq<char>) -> bool {
    s.len() == 16 && all_digits(s) && luhn_valid(s)
}

pub fn validate_card_number(card_number: &str) -> (r: ValidationResult)
    ensures
        verdict(r, card_number_ok(card_number@), "Invalid card number format or length."@),
{
    if is_digits_of_len(card_number, 16) && is_valid_card_number(card_number) {
        pass()
    } else {
        fail("Invalid card number format or length.")
    }
}

/// A card verification value: exactly 3 ASCII digits.
pub open spec fn cvv_ok(s: Seq<char>) -> bool {
    s.len() == 3 && all_digits(s)
}

pub fn validate_cvv(cvv: &str) -> (r: ValidationResult)
    ensures
        verdict(r, cvv_ok(cvv@), "Invalid CVV format or length."@),
{
    if is_digits_of_len(cvv, 3) {
        pass()
    } else {
        fail("Invalid CVV format or length.")
    }
}

pub fn validate_card_expiration_date(expiration_date: Date, issued_date: Date) -> (r:
    ValidationResult)
    ensures
        verdict(r, date_le(issued_date, expiration_date), "Card has expired."@),
{
    if issued_date.on_or_before(&expiration_date) {
        pass()
    } else {
        fail("Card has expired.")
    }
}

pub fn validate_card_status(card_status: &str) -> (r: ValidationResult)
    ensures
        verdict(
            r,
            card_status@ == "active"@ || card_status@ == "inactive"@,
            "Invalid card status."@,
        ),
{
    if same_text(card_status, "active") || same_text(card_status, "inactive") {
        pass()
    } else {
        fail("Invalid card status.")
    }
}

pub fn validate_card_type(card_type: &str) -> (r: ValidationResult)
    ensures
        verdict(r, card_type@ == "credit"@ || card_type@ == "debit"@, "Invalid card type."@),
{
    if same_text(card_type, "credit") || same_text(card_type, "debit") {
        pass()
    } else {
        fail("Invalid card type.")
    }
}

/// An account may not be opened after `today`.
pub fn validate_account_opened_date(opened_date: Date, today: Date) -> (r: ValidationResult)
    ensures
        verdict(r, date_le(opened_date, today), "Account cannot be opened in the future."@),
{
    if opened_date.on_or_before(&today) {
        pass()
    } else {
        fail("Account cannot be opened in the future.")
    }
}

} // verus!
