use bank_ledger::entities::{Bank, Branch};
use bank_ledger::ledger::{Ledger, LedgerError};
use bank_ledger::types::{AccountType, CardStatus, CardType, Date, Status, TransactionType};

const BANK: u128 = 1;
const OTHER_BANK: u128 = 2;
const BRANCH: u128 = 0x1a2b_0000_0000_4000_8000_0000_0000_0001;
const OTHER_BRANCH: u128 = 0xffee_0000_0000_4000_8000_0000_0000_0002;
const CARD_NUMBER: &str = "4532015112830366";

fn day(year: i32, month: u32, day: u32) -> Date {
    Date { year, month, day }
}

fn today() -> Date {
    day(2026, 6, 1)
}

fn bank<'a>(l: &'a Ledger, id: u128) -> &'a Bank {
    l.banks.iter().find(|b| b.id == id).unwrap()
}

fn branch<'a>(l: &'a Ledger, id: u128) -> &'a Branch {
    l.branches.iter().find(|b| b.id == id).unwrap()
}

fn s(t: &str) -> String {
    t.to_string()
}

fn with_branch() -> Ledger {
    let mut l = Ledger::new();
    l.create_bank(BANK, s("Acme"), 1).unwrap();
    l.create_branch(BANK, BRANCH, 300000).unwrap();
    l
}

fn add_customer(l: &mut Ledger, id: u128, cic: &str) -> Result<(), LedgerError> {
    l.create_customer(BRANCH, BANK, id, s("Ada"), s("ada@example.com"), s("+14155550123"), s(cic))
        .map(|_| ())
}

/// A bank with one branch, one customer (10), one account (20, serial 42)
/// holding 500, and one active card (30) on it holding 1000.
fn funded() -> Ledger {
    let mut l = with_branch();
    add_customer(&mut l, 10, "1234567890").unwrap();
    l.insert_account(10, 20, AccountType::Checkings, 500, day(2026, 1, 1), today(), 42).unwrap();
    l.issue_card(
        20,
        30,
        s(CARD_NUMBER),
        s("123"),
        CardType::Debit,
        day(2026, 1, 1),
        day(2029, 1, 1),
        1000,
    )
    .unwrap();
    l
}

/// The bank totals equal the sums and counts over their rows.
fn assert_consistent(l: &Ledger) {
    for b in &l.banks {
        let money: i64 = l.branches.iter().filter(|x| x.bank_id == b.id).map(|x| x.total_money).sum();
        assert_eq!(b.total_money, money);
        assert_eq!(b.total_customers, l.customers.iter().filter(|x| x.bank_id == b.id).count() as u64);
        assert_eq!(b.total_accounts, l.accounts.iter().filter(|x| x.bank_id == b.id).count() as u64);
        assert_eq!(b.total_cards, l.cards.iter().filter(|x| x.bank_id == b.id).count() as u64);
        assert_eq!(
            b.total_transactions,
            l.transactions.iter().filter(|x| x.bank_id == b.id).count() as u64
        );
    }
    for br in &l.branches {
        assert_eq!(br.total_customers, l.customers.iter().filter(|x| x.branch_id == br.id).count() as u64);
        assert_eq!(br.total_accounts, l.accounts.iter().filter(|x| x.branch_id == br.id).count() as u64);
        assert_eq!(br.total_cards, l.cards.iter().filter(|x| x.branch_id == br.id).count() as u64);
        assert_eq!(
            br.total_transactions,
            l.transactions.iter().filter(|x| x.branch_id == br.id).count() as u64
        );
    }
}

#[test]
fn new_bank_starts_at_zero() {
    let mut l = Ledger::new();
    assert_eq!(l.create_bank(BANK, s("Acme"), 3), Ok(BANK));
    let b = bank(&l, BANK);
    assert_eq!((b.total_money, b.total_customers, b.total_cards, b.fee), (0, 0, 0, 3));
    assert_eq!(l.create_bank(BANK, s("Again"), 3), Err(LedgerError::DuplicateId));
    assert_eq!(l.banks.len(), 1);
}

#[test]
fn branch_below_minimum_pre_deposit_is_rejected() {
    let mut l = Ledger::new();
    l.create_bank(BANK, s("Acme"), 1).unwrap();
    let r = l.create_branch(BANK, BRANCH, 299999);
    assert_eq!(
        r,
        Err(LedgerError::InvalidInput(s("Pre-deposit amount must be greater than or equal to 300000")))
    );
    assert!(l.branches.is_empty());
    assert_eq!(bank(&l, BANK).total_money, 0);
}

#[test]
fn branch_at_minimum_pre_deposit_funds_bank() {
    let mut l = Ledger::new();
    l.create_bank(BANK, s("Acme"), 1).unwrap();
    let b = l.create_branch(BANK, BRANCH, 300000).unwrap();
    assert_eq!(b.total_money, 300000);
    assert_eq!(b.pre_deposit_amount, 300000);
    assert_eq!(b.branch_name, "Acme-1A2B");
    assert_eq!(bank(&l, BANK).total_money, 300000);
    l.create_branch(BANK, OTHER_BRANCH, 450000).unwrap();
    assert_eq!(branch(&l, OTHER_BRANCH).branch_name, "Acme-FFEE");
    assert_eq!(bank(&l, BANK).total_money, 750000);
    assert_consistent(&l);
}

#[test]
fn branch_needs_a_bank_and_a_new_id() {
    let mut l = with_branch();
    assert_eq!(l.create_branch(OTHER_BANK, OTHER_BRANCH, 300000), Err(LedgerError::BankNotFound));
    assert_eq!(l.create_branch(BANK, BRANCH, 300000), Err(LedgerError::DuplicateId));
    assert_eq!(bank(&l, BANK).total_money, 300000);
}

#[test]
fn duplicate_cic_in_same_bank_is_rejected() {
    let mut l = with_branch();
    add_customer(&mut l, 10, "1234567890").unwrap();
    assert_eq!(add_customer(&mut l, 11, "1234567890"), Err(LedgerError::DuplicateCic));
    assert_eq!(l.customers.len(), 1);
    assert_eq!(branch(&l, BRANCH).total_customers, 1);
    assert_eq!(bank(&l, BANK).total_customers, 1);
}

#[test]
fn same_cic_in_another_bank_is_accepted() {
    let mut l = with_branch();
    l.create_bank(OTHER_BANK, s("Other"), 1).unwrap();
    l.create_branch(OTHER_BANK, OTHER_BRANCH, 300000).unwrap();
    add_customer(&mut l, 10, "1234567890").unwrap();
    let c = l
        .create_customer(
            OTHER_BRANCH,
            OTHER_BANK,
            11,
            s("Ada"),
            s("ada@example.com"),
            s("+14155550123"),
            s("1234567890"),
        )
        .unwrap();
    assert_eq!(c.bank_id, OTHER_BANK);
    assert_eq!(l.customers.len(), 2);
    assert_eq!(bank(&l, OTHER_BANK).total_customers, 1);
    assert_eq!(branch(&l, OTHER_BRANCH).total_customers, 1);
    assert_consistent(&l);
}

#[test]
fn customer_lookup_errors_come_before_field_errors() {
    let mut l = with_branch();
    l.create_bank(OTHER_BANK, s("Other"), 1).unwrap();
    let bad = |l: &mut Ledger, branch: u128, bank: u128| {
        l.create_customer(branch, bank, 10, s(""), s("x"), s("y"), s("z"))
    };
    assert_eq!(bad(&mut l, BRANCH, 99), Err(LedgerError::BankNotFound));
    assert_eq!(bad(&mut l, BRANCH, OTHER_BANK), Err(LedgerError::BranchNotFound));
    assert_eq!(
        bad(&mut l, BRANCH, BANK),
        Err(LedgerError::InvalidInput(s("Customer name cannot be empty.")))
    );
    let r = l.create_customer(BRANCH, BANK, 10, s("Ada"), s("nope"), s("+14155550123"), s("1234567890"));
    assert_eq!(r, Err(LedgerError::InvalidInput(s("Invalid email format."))));
    let r = l.create_customer(BRANCH, BANK, 10, s("Ada"), s("a@b.io"), s("555"), s("1234567890"));
    assert_eq!(r, Err(LedgerError::InvalidInput(s("Invalid phone number format."))));
    let r = l.create_customer(BRANCH, BANK, 10, s("Ada"), s("a@b.io"), s("+15551234"), s("123"));
    assert_eq!(r, Err(LedgerError::InvalidInput(s("Invalid CIC number format or length."))));
    assert!(l.customers.is_empty());
}

#[test]
fn account_gets_padded_number_and_is_counted() {
    let mut l = with_branch();
    add_customer(&mut l, 10, "1234567890").unwrap();
    let a = l.insert_account(10, 20, AccountType::Savings, 500, day(2026, 1, 1), today(), 42).unwrap();
    assert_eq!(a.account_number, "000000000042");
    assert_eq!((a.balance, a.branch_id, a.bank_id, a.customer_id), (500, BRANCH, BANK, 10));
    assert_eq!(a.last_updated_date, today());
    assert_eq!(branch(&l, BRANCH).total_accounts, 1);
    assert_eq!(bank(&l, BANK).total_accounts, 1);
    assert_eq!(
        l.insert_account(10, 21, AccountType::Savings, 0, day(2026, 1, 1), today(), 42),
        Err(LedgerError::DuplicateAccountNumber)
    );
    assert_eq!(l.accounts.len(), 1);
}

#[test]
fn account_inputs_are_checked() {
    let mut l = with_branch();
    add_customer(&mut l, 10, "1234567890").unwrap();
    assert_eq!(
        l.insert_account(10, 20, AccountType::Savings, -1, day(2026, 1, 1), today(), 1),
        Err(LedgerError::InvalidInput(s("Account balance cannot be negative.")))
    );
    assert_eq!(
        l.insert_account(10, 20, AccountType::Savings, 0, day(2026, 6, 2), today(), 1),
        Err(LedgerError::InvalidInput(s("Account cannot be opened in the future.")))
    );
    assert_eq!(
        l.insert_account(11, 20, AccountType::Savings, 0, day(2026, 1, 1), today(), 1),
        Err(LedgerError::CustomerNotFound)
    );
    assert!(l.accounts.is_empty());
}

#[test]
fn open_account_draws_a_number() {
    let mut l = with_branch();
    add_customer(&mut l, 10, "1234567890").unwrap();
    let a = l.open_account(10, 20, AccountType::Checkings, 0, day(2026, 1, 1), today()).unwrap();
    assert_eq!(a.account_number.len(), 12);
    assert!(a.account_number.starts_with('0'));
    assert!(a.account_number.chars().all(|c| c.is_ascii_digit()));
    assert_eq!(l.accounts.len(), 1);
    assert_eq!(
        l.open_account(10, 20, AccountType::Checkings, 0, day(2026, 1, 1), today()),
        Err(LedgerError::DuplicateId)
    );
}

#[test]
fn card_issue_rules() {
    let mut l = funded();
    let c = &l.cards[0];
    assert_eq!(c.card_status, CardStatus::Active);
    assert_eq!(c.account_number, "000000000042");
    assert_eq!((c.branch_id, c.bank_id, c.balance), (BRANCH, BANK, 1000));
    assert_eq!(branch(&l, BRANCH).total_cards, 1);
    let issue = |l: &mut Ledger, account: u128, number: &str, cvv: &str, exp: Date| {
        l.issue_card(account, 31, s(number), s(cvv), CardType::Credit, day(2026, 1, 1), exp, 0)
    };
    assert_eq!(issue(&mut l, 99, "4111111111111111", "123", day(2029, 1, 1)), Err(LedgerError::AccountNotFound));
    assert_eq!(
        issue(&mut l, 20, "4111111111111112", "123", day(2029, 1, 1)),
        Err(LedgerError::InvalidInput(s("Invalid card number format or length.")))
    );
    assert_eq!(
        issue(&mut l, 20, "411111111111111", "123", day(2029, 1, 1)),
        Err(LedgerError::InvalidInput(s("Invalid card number format or length.")))
    );
    assert_eq!(
        issue(&mut l, 20, "4111111111111111", "12", day(2029, 1, 1)),
        Err(LedgerError::InvalidInput(s("Invalid CVV format or length.")))
    );
    assert_eq!(
        issue(&mut l, 20, "4111111111111111", "123", day(2025, 1, 1)),
        Err(LedgerError::InvalidInput(s("Card has expired.")))
    );
    assert_eq!(issue(&mut l, 20, CARD_NUMBER, "123", day(2029, 1, 1)), Err(LedgerError::DuplicateCardNumber));
    assert_eq!(l.cards.len(), 1);
    issue(&mut l, 20, "4111111111111111", "123", day(2029, 1, 1)).unwrap();
    assert_eq!(branch(&l, BRANCH).total_cards, 2);
    assert_eq!(bank(&l, BANK).total_cards, 2);
}

#[test]
fn card_status_moves_forward_only() {
    let mut l = funded();
    assert_eq!(l.set_card_status(30, CardStatus::Closed), Err(LedgerError::IllegalStatusChange));
    assert_eq!(l.set_card_status(30, CardStatus::Inactive), Ok(()));
    assert_eq!(l.set_card_status(30, CardStatus::Closed), Ok(()));
    assert_eq!(l.set_card_status(30, CardStatus::Active), Err(LedgerError::IllegalStatusChange));
    assert_eq!(l.cards[0].card_status, CardStatus::Closed);
    assert_eq!(l.set_card_status(99, CardStatus::Inactive), Err(LedgerError::CardNotFound));
}

#[test]
fn hold_reserves_balance_once() {
    let mut l = funded();
    let h = l.place_hold(s("000000000042"), 30, 400, 7).unwrap();
    assert_eq!((h.amount, h.card_id, h.branch_id), (400, 30, BRANCH));
    assert_eq!(l.cards[0].balance, 600);
    assert_eq!(l.place_hold(s("000000000042"), 30, 100, 7), Err(LedgerError::DuplicateHold));
    assert_eq!(l.place_hold(s("000000000042"), 30, 601, 8), Err(LedgerError::InsufficientFunds));
    assert_eq!(l.place_hold(s("000000000043"), 30, 1, 8), Err(LedgerError::CardAccountMismatch));
    assert_eq!(l.place_hold(s("000000000042"), 31, 1, 8), Err(LedgerError::CardNotFound));
    assert_eq!(
        l.place_hold(s("000000000042"), 30, -1, 8),
        Err(LedgerError::InvalidInput(s("Hold amount cannot be negative.")))
    );
    assert_eq!(l.cards[0].balance, 600);
    assert_eq!(l.holds.len(), 1);
    l.set_card_status(30, CardStatus::Inactive).unwrap();
    assert_eq!(l.place_hold(s("000000000042"), 30, 1, 8), Err(LedgerError::CardNotActive));
}

#[test]
fn second_payment_for_card_is_rejected() {
    let mut l = funded();
    let t = l.capture_payment(30, 40, 250, today()).unwrap();
    assert_eq!(t.status, Status::Approved);
    assert_eq!(t.transaction_type, TransactionType::DebitCardCharge);
    assert_eq!((t.amount, t.card_id, t.branch_id), (250, 30, BRANCH));
    assert_eq!(t.card_number, CARD_NUMBER);
    assert_eq!(l.transactions.len(), 1);
    assert_eq!(l.capture_payment(30, 41, 10, today()), Err(LedgerError::DuplicatePayment(t.clone())));
    assert_eq!(l.transactions.len(), 1);
    assert_eq!(branch(&l, BRANCH).total_transactions, 1);
    assert_eq!(bank(&l, BANK).total_transactions, 1);
}

#[test]
fn negative_payment_writes_nothing() {
    let mut l = funded();
    let r = l.capture_payment(30, 40, -5, today());
    assert_eq!(r, Err(LedgerError::InvalidInput(s("invalid amount must be a interger (> 0)"))));
    assert!(l.transactions.is_empty());
    assert_eq!(branch(&l, BRANCH).total_transactions, 0);
    assert_eq!(l.capture_payment(99, 40, 5, today()), Err(LedgerError::CardNotFound));
}

#[test]
fn refund_rules() {
    let mut l = funded();
    l.capture_payment(30, 40, 250, today()).unwrap();
    assert_eq!(l.create_refund(40, 50, 251, today()), Err(LedgerError::RefundExceedsAmount));
    assert_eq!(l.create_refund(41, 50, 1, today()), Err(LedgerError::TransactionNotFound));
    assert_eq!(
        l.create_refund(40, 50, -1, today()),
        Err(LedgerError::InvalidInput(s("Refund amount cannot be negative.")))
    );
    let r = l.create_refund(40, 50, 250, today()).unwrap();
    assert_eq!((r.refund_amount, r.transaction_id, r.status), (250, 40, Status::Pending));
    assert_eq!(r.refund_date, today());
    assert_eq!(l.create_refund(40, 51, 1, today()), Err(LedgerError::DuplicateRefund));
    assert_eq!(l.refunds.len(), 1);
}

#[test]
fn transfer_moves_money_atomically() {
    let mut l = funded();
    let t = l.transfer(s(CARD_NUMBER), s("000000000042"), 300, 60, today()).unwrap();
    assert_eq!((t.amount, t.id, t.transfer_date), (300, 60, today()));
    assert_eq!(l.cards[0].balance, 700);
    assert_eq!(l.accounts[0].balance, 800);
    assert_eq!(l.transfers.len(), 1);
    let t = l.transfer(s(CARD_NUMBER), s("000000000042"), 700, 61, today()).unwrap();
    assert_eq!(t.amount, 700);
    assert_eq!(l.cards[0].balance, 0);
    assert_eq!(l.accounts[0].balance, 1500);
}

#[test]
fn transfer_above_balance_changes_nothing() {
    let mut l = funded();
    assert_eq!(
        l.transfer(s(CARD_NUMBER), s("000000000042"), 1001, 60, today()),
        Err(LedgerError::InsufficientFunds)
    );
    assert_eq!(l.cards[0].balance, 1000);
    assert_eq!(l.accounts[0].balance, 500);
    assert!(l.transfers.is_empty());
    assert_eq!(
        l.transfer(s(CARD_NUMBER), s("999999999999"), 1, 60, today()),
        Err(LedgerError::AccountNotFound)
    );
    assert_eq!(
        l.transfer(s("4111111111111111"), s("000000000042"), 1, 60, today()),
        Err(LedgerError::CardNotFound)
    );
    assert_eq!(
        l.transfer(s(CARD_NUMBER), s("000000000042"), -1, 60, today()),
        Err(LedgerError::InvalidInput(s("Transfer amount cannot be negative.")))
    );
    assert_eq!(l.cards[0].balance, 1000);
    assert_eq!(l.accounts[0].balance, 500);
    assert!(l.transfers.is_empty());
}

#[test]
fn deposit_grows_branch_and_bank_alike() {
    let mut l = with_branch();
    l.update_total_money_on_deposit(BRANCH, 350000).unwrap();
    assert_eq!(branch(&l, BRANCH).total_money, 650000);
    assert_eq!(branch(&l, BRANCH).pre_deposit_amount, 300000);
    assert_eq!(bank(&l, BANK).total_money, 650000);
    l.update_total_money_on_deposit(BRANCH, 1).unwrap();
    assert_eq!(branch(&l, BRANCH).total_money, 650001);
    assert_eq!(bank(&l, BANK).total_money, 650001);
    assert_eq!(l.update_total_money_on_deposit(99, 1), Err(LedgerError::BranchNotFound));
    assert_consistent(&l);
}

#[test]
fn propagate_is_idempotent() {
    let mut l = funded();
    l.capture_payment(30, 40, 250, today()).unwrap();
    let before_banks = l.banks.clone();
    let before_branches = l.branches.clone();
    l.propagate().unwrap();
    assert_eq!(l.banks, before_banks);
    assert_eq!(l.branches, before_branches);
    l.propagate().unwrap();
    assert_eq!(l.banks, before_banks);
}

#[test]
fn totals_stay_consistent_over_a_session() {
    let mut l = with_branch();
    assert_consistent(&l);
    l.create_bank(OTHER_BANK, s("Other"), 2).unwrap();
    l.create_branch(OTHER_BANK, OTHER_BRANCH, 400000).unwrap();
    assert_consistent(&l);
    add_customer(&mut l, 10, "1234567890").unwrap();
    assert_consistent(&l);
    l.insert_account(10, 20, AccountType::Checkings, 500, day(2026, 1, 1), today(), 42).unwrap();
    assert_consistent(&l);
    l.issue_card(20, 30, s(CARD_NUMBER), s("123"), CardType::Debit, day(2026, 1, 1), day(2029, 1, 1), 1000)
        .unwrap();
    assert_consistent(&l);
    l.place_hold(s("000000000042"), 30, 100, 7).unwrap();
    l.capture_payment(30, 40, 100, today()).unwrap();
    assert_consistent(&l);
    l.create_refund(40, 50, 50, today()).unwrap();
    l.transfer(s(CARD_NUMBER), s("000000000042"), 200, 60, today()).unwrap();
    assert_consistent(&l);
    let _ = add_customer(&mut l, 11, "1234567890");
    let _ = l.capture_payment(30, 41, 5, today());
    assert_consistent(&l);
    assert_eq!(bank(&l, BANK).total_money, 300000);
    assert_eq!(bank(&l, OTHER_BANK).total_money, 400000);
}

#[test]
fn lookups_find_stored_rows() {
    let mut l = funded();
    l.create_bank(OTHER_BANK, s("Other"), 1).unwrap();
    l.create_branch(OTHER_BANK, OTHER_BRANCH, 300000).unwrap();
    assert_eq!(l.get_bank_by_id(BANK).unwrap().bank_name, "Acme");
    assert_eq!(l.get_bank_by_id(99), None);
    assert_eq!(l.get_by_bank_name(&s("Other")).unwrap().id, OTHER_BANK);
    assert_eq!(l.get_by_bank_name(&s("Nobody")), None);
    assert_eq!(l.get_branch_by_id(BRANCH).unwrap().branch_name, "Acme-1A2B");
    assert_eq!(l.get_branch_by_id(99), Err(LedgerError::BranchNotFound));
    let of_bank = l.get_branches_by_bank_id(OTHER_BANK);
    assert_eq!(of_bank.len(), 1);
    assert_eq!(of_bank[0].id, OTHER_BRANCH);
    assert!(l.get_branches_by_bank_id(99).is_empty());
    assert_eq!(l.get_total_customers_count(BANK), 1);
    assert_eq!(l.get_total_customers_count(OTHER_BANK), 0);
    assert_eq!(l.get_by_card_number(&s(CARD_NUMBER)).unwrap().id, 30);
    assert_eq!(l.get_by_card_number(&s("4111111111111111")), None);
    assert!(l.card_belongs_to_account(&s(CARD_NUMBER), 20));
    assert!(!l.card_belongs_to_account(&s(CARD_NUMBER), 21));
}

#[test]
fn refund_lookup_by_transaction() {
    let mut l = funded();
    l.capture_payment(30, 40, 250, today()).unwrap();
    assert_eq!(l.get_by_transaction_id(40), None);
    l.create_refund(40, 50, 100, today()).unwrap();
    assert_eq!(l.get_by_transaction_id(40).unwrap().id, 50);
}

#[test]
fn customer_lookup_checks_fields_then_matches() {
    let l = funded();
    let c = l
        .get_customer_by_cic_phone_name_and_bank_id("1234567890", "+14155550123", "Ada", BANK)
        .unwrap();
    assert_eq!(c.id, 10);
    assert_eq!(
        l.get_customer_by_cic_phone_name_and_bank_id("1234567890", "+14155550123", "Bob", BANK),
        Err(LedgerError::CustomerNotFound)
    );
    assert_eq!(
        l.get_customer_by_cic_phone_name_and_bank_id("1234567890", "+14155550123", "Ada", OTHER_BANK),
        Err(LedgerError::CustomerNotFound)
    );
    assert_eq!(
        l.get_customer_by_cic_phone_name_and_bank_id("12", "+14155550123", "Ada", BANK),
        Err(LedgerError::InvalidInput(s("Invalid CIC number format or length.")))
    );
    assert_eq!(
        l.get_customer_by_cic_phone_name_and_bank_id("1234567890", "555", "Ada", BANK),
        Err(LedgerError::InvalidInput(s("Invalid phone number format.")))
    );
}

#[test]
fn bank_totals_are_rederived_from_branches() {
    let mut l = with_branch();
    l.create_branch(BANK, OTHER_BRANCH, 400000).unwrap();
    l.update_total_money_on_deposit(BRANCH, 10000).unwrap();
    assert_eq!(l.update_total_money(99), Err(LedgerError::BankNotFound));
    l.update_total_money(BANK).unwrap();
    assert_eq!(bank(&l, BANK).total_money, 710000);
    l.update_total_debt_to_collect(BANK).unwrap();
    l.update_total_loans_given(BANK).unwrap();
    assert_eq!(bank(&l, BANK).total_debt_to_collect, 0);
    assert_eq!(bank(&l, BANK).total_loans_given, 0);
    assert_eq!(l.update_total_debt_to_collect(99), Err(LedgerError::BankNotFound));
    assert_eq!(l.update_total_loans_given(99), Err(LedgerError::BankNotFound));
    assert_consistent(&l);
}
