use bank_ledger::card_checks::{
    has_sufficient_balance, is_card_active, is_card_not_expired, is_valid_card_number,
    is_valid_card_type,
};
use bank_ledger::ids::{account_number_for, branch_name_for};
use bank_ledger::responses::create_invalid_data_response;
use bank_ledger::types::{CardStatus, Date};
use bank_ledger::validation::{
    validate_account_balance, validate_account_number, validate_account_opened_date,
    validate_card_expiration_date, validate_card_number, validate_card_status, validate_card_type,
    validate_cic_number, validate_customer_name, validate_cvv, validate_email, validate_input,
    validate_phone_number, ValidationResult,
};

fn day(year: i32, month: u32, day: u32) -> Date {
    Date { year, month, day }
}

fn reason(r: &ValidationResult) -> Option<&str> {
    r.error_message.as_deref()
}

#[test]
fn luhn_accepts_standard_vector() {
    assert!(is_valid_card_number("4532015112830366"));
}

#[test]
fn luhn_rejects_one_altered_digit() {
    assert!(!is_valid_card_number("4532015112830367"));
    assert!(!is_valid_card_number("4532015112830376"));
}

#[test]
fn luhn_misses_only_nine_zero_swaps_at_doubled_places() {
    assert!(is_valid_card_number("0000000000000000"));
    assert!(is_valid_card_number("0000000000000090"));
    assert!(!is_valid_card_number("0000000000000009"));
    assert!(!is_valid_card_number("0000000000000080"));
}

#[test]
fn luhn_needs_thirteen_digits() {
    assert!(!is_valid_card_number(""));
    assert!(!is_valid_card_number("000000000000"));
    assert!(is_valid_card_number("0000000000000"));
}

#[test]
fn luhn_skips_separators() {
    assert!(is_valid_card_number("4532-0151-1283-0366"));
    assert!(is_valid_card_number("4111 1111 1111 1111"));
}

#[test]
fn cic_of_ten_digits_is_valid() {
    let r = validate_cic_number("1234567890");
    assert!(r.is_valid);
    assert_eq!(r.error_message, None);
}

#[test]
fn cic_of_wrong_length_or_letters_is_invalid() {
    for bad in ["123456789", "12345678901", "12345abcde", ""] {
        let r = validate_cic_number(bad);
        assert!(!r.is_valid, "{bad}");
        assert_eq!(reason(&r), Some("Invalid CIC number format or length."));
    }
}

#[test]
fn customer_name_rules() {
    assert_eq!(reason(&validate_customer_name("")), Some("Customer name cannot be empty."));
    assert_eq!(reason(&validate_customer_name("   ")), Some("Customer name cannot be empty."));
    let long = "a".repeat(101);
    assert_eq!(
        reason(&validate_customer_name(&long)),
        Some("Customer name cannot exceed 100 characters.")
    );
    assert!(validate_customer_name(&"a".repeat(100)).is_valid);
    assert!(validate_customer_name("Ada Lovelace").is_valid);
}

#[test]
fn email_rules() {
    assert!(validate_email("ada@example.com").is_valid);
    let r = validate_email("ada.example.com");
    assert_eq!(reason(&r), Some("Invalid email format."));
    assert!(!validate_email("ada@example.c").is_valid);
}

#[test]
fn phone_rules() {
    assert!(validate_phone_number("+14155550123").is_valid);
    assert_eq!(
        reason(&validate_phone_number("14155550123")),
        Some("Invalid phone number format.")
    );
    assert!(!validate_phone_number("+04155550123").is_valid);
    assert!(!validate_phone_number("+1").is_valid);
}

#[test]
fn account_number_lengths() {
    assert!(!validate_account_number("12345").is_valid);
    assert!(validate_account_number("123456").is_valid);
    assert!(validate_account_number(&"1".repeat(20)).is_valid);
    assert!(validate_account_number("\u{e9}\u{e9}\u{e9}").is_valid);
    assert!(!validate_account_number("\u{e9}\u{e9}").is_valid);
    let r = validate_account_number(&"1".repeat(21));
    assert_eq!(reason(&r), Some("Invalid account number format or length."));
}

#[test]
fn balance_must_not_be_negative() {
    assert!(validate_account_balance(0).is_valid);
    assert_eq!(
        reason(&validate_account_balance(-1)),
        Some("Account balance cannot be negative.")
    );
}

#[test]
fn card_number_and_cvv_shapes() {
    assert!(validate_card_number("4532015112830366").is_valid);
    assert_eq!(
        reason(&validate_card_number("453201511283036")),
        Some("Invalid card number format or length.")
    );
    assert!(!validate_card_number("453201511283036a").is_valid);
    assert_eq!(
        reason(&validate_card_number("0000000000000001")),
        Some("Invalid card number format or length.")
    );
    assert!(validate_card_number("4111111111111111").is_valid);
    assert!(validate_cvv("123").is_valid);
    assert_eq!(reason(&validate_cvv("12")), Some("Invalid CVV format or length."));
    assert!(!validate_cvv("12a").is_valid);
}

#[test]
fn card_status_and_type_words() {
    assert!(validate_card_status("active").is_valid);
    assert!(validate_card_status("inactive").is_valid);
    assert_eq!(reason(&validate_card_status("closed")), Some("Invalid card status."));
    assert!(validate_card_type("credit").is_valid);
    assert!(validate_card_type("debit").is_valid);
    assert_eq!(reason(&validate_card_type("Debit")), Some("Invalid card type."));
    assert!(is_valid_card_type("DEBIT"));
    assert!(is_valid_card_type("Credit"));
    assert!(!is_valid_card_type("gold"));
}

#[test]
fn date_rules() {
    assert!(validate_card_expiration_date(day(2027, 1, 1), day(2026, 12, 31)).is_valid);
    assert!(validate_card_expiration_date(day(2026, 5, 5), day(2026, 5, 5)).is_valid);
    assert_eq!(
        reason(&validate_card_expiration_date(day(2026, 5, 4), day(2026, 5, 5))),
        Some("Card has expired.")
    );
    assert!(validate_account_opened_date(day(2026, 1, 1), day(2026, 1, 1)).is_valid);
    assert_eq!(
        reason(&validate_account_opened_date(day(2026, 2, 1), day(2026, 1, 31))),
        Some("Account cannot be opened in the future.")
    );
    assert!(is_card_not_expired(&day(2026, 1, 2), &day(2026, 1, 1)));
    assert!(!is_card_not_expired(&day(2026, 1, 1), &day(2026, 1, 1)));
}

#[test]
fn validate_input_short_circuits() {
    assert_eq!(validate_input("1234567890", |s: &&str| validate_cic_number(s)), Ok("1234567890"));
    let e = validate_input("12", |s: &&str| validate_cic_number(s)).unwrap_err();
    assert!(!e.is_valid);
}

#[test]
fn balance_and_status_checks() {
    assert!(has_sufficient_balance(10, 10));
    assert!(!has_sufficient_balance(9, 10));
    assert!(is_card_active(CardStatus::Active));
    assert!(!is_card_active(CardStatus::Inactive));
    assert!(CardStatus::Active.can_become(CardStatus::Inactive));
    assert!(CardStatus::Inactive.can_become(CardStatus::Closed));
    assert!(!CardStatus::Active.can_become(CardStatus::Closed));
    assert!(!CardStatus::Closed.can_become(CardStatus::Active));
}

#[test]
fn branch_names_take_four_upper_hex_digits() {
    let id: u128 = 0xabcd_ef01_2345_6789_abcd_ef01_2345_6789;
    assert_eq!(branch_name_for("Acme", id), "Acme-ABCD");
    assert_eq!(branch_name_for("Acme", 0x0a1b << 112), "Acme-0A1B");
}

#[test]
fn account_numbers_are_zero_padded() {
    assert_eq!(account_number_for(42), "000000000042");
    assert_eq!(account_number_for(0), "000000000000");
    assert_eq!(account_number_for(99_999_999_999), "099999999999");
}

#[test]
fn invalid_data_response_keeps_the_data() {
    let r = create_invalid_data_response(7u8, "bad amount", 400);
    assert_eq!(r.response_data, 7);
    assert_eq!(r.invalid_data.error_message, "bad amount");
    assert_eq!(r.invalid_data.status_code, 400);
}
