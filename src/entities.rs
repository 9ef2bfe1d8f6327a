use vstd::prelude::*;

use crate::types::{AccountType, CardStatus, CardType, Date, Status, TransactionType};

verus! {

/// A stored row with an identifier.
pub trait Keyed {
    spec fn row_id(&self) -> u128;

    fn id_of(&self) -> (r: u128)
        ensures
            r == self.row_id(),
    ;
}

/// A row that belongs to a branch and, through it, to a bank.
pub trait Owned {
    spec fn row_branch(&self) -> u128;

    spec fn row_bank(&self) -> u128;

    fn branch_of(&self) -> (r: u128)
        ensures
            r == self.row_branch(),
    ;

    fn bank_of(&self) -> (r: u128)
        ensures
            r == self.row_bank(),
    ;
}

/// The root of a tenant, with rollups over all its branches.
#[derive(Debug, Clone, PartialEq, Eq)]
pub struct Bank {
    pub id: u128,
    pub bank_name: String,
    pub fee: i32,
    pub total_money: i64,
    pub total_debt_to_collect: i64,
    pub total_loans_given: i64,
    pub total_cards: u64,
    pub total_accounts: u64,
    pub total_transactions: u64,
    pub total_customers: u64,
}

/// A branch of one bank, funded with a pre-deposit, with rollups over its
/// own customers, accounts, cards and transactions.
#[derive(Debug, Clone, PartialEq, Eq)]
pub struct Branch {
    pub id: u128,
    pub branch_name: String,
    pub bank_id: u128,
    pub pre_deposit_amount: i32,
    pub total_money: i64,
    pub debt_to_collect: i64,
    pub loans_given: i64,
    pub total_cards: u64,
    pub total_accounts: u64,
    pub total_transactions: u64,
    pub total_customers: u64,
}

#[derive(Debug, Clone, PartialEq, Eq)]
pub struct Customer {
    pub branch_id: u128,
    pub bank_id: u128,
    pub id: u128,
    pub customer_name: String,
    pub email: String,
    pub phone_number: String,
    pub cic_number: String,
}

#[derive(Debug, Clone, PartialEq, Eq)]
pub struct Account {
    pub branch_id: u128,
    pub bank_id: u128,
    pub id: u128,
    pub account_number: String,
    pub balance: i64,
    pub account_type: AccountType,
    pub customer_id: u128,
    pub opened_date: Date,
    pub last_updated_date: Date,
}

#[derive(Debug, Clone, PartialEq, Eq)]
pub struct Card {
    pub id: u128,
    pub card_number: String,
    pub account_number: String,
    pub expiration_date: Date,
    pub cvv: String,
    pub issued_date: Date,
    pub balance: i64,
    pub card_status: CardStatus,
    pub card_type: CardType,
    pub bank_id: u128,
    pub branch_id: u128,
}

/// One money-moving event against a card.
#[derive(Debug, Clone, PartialEq, Eq)]
pub struct Transaction {
    pub branch_id: u128,
    pub bank_id: u128,
    pub id: u128,
    pub card_id: u128,
    pub account_number: String,
    pub transaction_type: TransactionType,
    pub card_number: String,
    pub amount: i64,
    pub transaction_date: Date,
    pub status: Status,
}

#[derive(Debug, Clone, PartialEq, Eq)]
pub struct Refund {
    pub branch_id: u128,
    pub bank_id: u128,
    pub id: u128,
    pub transaction_id: u128,
    pub refund_amount: i64,
    pub refund_date: Date,
    pub status: Status,
}

/// A movement from a sender's card to a beneficiary's account.
#[derive(Debug, Clone, PartialEq, Eq)]
pub struct Transfer {
    pub branch_id: u128,
    pub bank_id: u128,
    pub id: u128,
    pub sender_card_number: String,
    pub beneficiary_account_number: String,
    pub amount: i64,
    pub transfer_date: Date,
}

/// An amount reserved against a card, not yet a transaction.
#[derive(Debug, Clone, PartialEq, Eq)]
pub struct Hold {
    pub id: u128,
    pub account_number: String,
    pub card_id: u128,
    pub amount: i64,
    pub branch_id: u128,
    pub bank_id: u128,
}

/// A saved transfer target of a customer.
#[derive(Debug, Clone, PartialEq, Eq)]
pub struct Beneficiary {
    pub branch_id: u128,
    pub bank_id: u128,
    pub id: u128,
    pub customer_id: u128,
    pub beneficiary_name: String,
    pub beneficiary_account_number: String,
}

/// A loan from one card's holder to another's.
#[derive(Debug, Clone, PartialEq, Eq)]
pub struct Loan {
    pub branch_id: u128,
    pub bank_id: u128,
    pub id: u128,
    pub amount: i64,
    pub interest_rate: i32,
    pub lender_card_id: u128,
    pub borrower_card_id: u128,
    pub start_date: Date,
    pub end_date: Date,
    pub status: Status,
}

impl Keyed for Bank {
    open spec fn row_id(&self) -> u128 {
        self.id
    }

    fn id_of(&self) -> (r: u128) {
        self.id
    }
}

impl Keyed for Branch {
    open spec fn row_id(&self) -> u128 {
        self.id
    }

    fn id_of(&self) -> (r: u128) {
        self.id
    }
}

impl Keyed for Customer {
    open spec fn row_id(&self) -> u128 {
        self.id
    }

    fn id_of(&self) -> (r: u128) {
        self.id
    }
}

impl Owned for Customer {
    open spec fn row_branch(&self) -> u128 {
        self.branch_id
    }

    open spec fn row_bank(&self) -> u128 {
        self.bank_id
    }

    fn branch_of(&self) -> (r: u128) {
        self.branch_id
    }

    fn bank_of(&self) -> (r: u128) {
        self.bank_id
    }
}

impl Keyed for Account {
    open spec fn row_id(&self) -> u128 {
        self.id
    }

    fn id_of(&self) -> (r: u128) {
        self.id
    }
}

impl Owned for Account {
    open spec fn row_branch(&self) -> u128 {
        self.branch_id
    }

    open spec fn row_bank(&self) -> u128 {
        self.bank_id
    }

    fn branch_of(&self) -> (r: u128) {
        self.branch_id
    }

    fn bank_of(&self) -> (r: u128) {
        self.bank_id
    }
}

impl Keyed for Card {
    open spec fn row_id(&self) -> u128 {
        self.id
    }

    fn id_of(&self) -> (r: u128) {
        self.id
    }
}

impl Owned for Card {
    open spec fn row_branch(&self) -> u128 {
        self.branch_id
    }

    open spec fn row_bank(&self) -> u128 {
        self.bank_id
    }

    fn branch_of(&self) -> (r: u128) {
        self.branch_id
    }

    fn bank_of(&self) -> (r: u128) {
        self.bank_id
    }
}

impl Keyed for Transaction {
    open spec fn row_id(&self) -> u128 {
        self.id
    }

    fn id_of(&self) -> (r: u128) {
        self.id
    }
}

impl Owned for Transaction {
    open spec fn row_branch(&self) -> u128 {
        self.branch_id
    }

    open spec fn row_bank(&self) -> u128 {
        self.bank_id
    }

    fn branch_of(&self) -> (r: u128) {
        self.branch_id
    }

    fn bank_of(&self) -> (r: u128) {
        self.bank_id
    }
}

impl Keyed for Refund {
    open spec fn row_id(&self) -> u128 {
        self.id
    }

    fn id_of(&self) -> (r: u128) {
        self.id
    }
}

impl Owned for Refund {
    open spec fn row_branch(&self) -> u128 {
        self.branch_id
    }

    open spec fn row_bank(&self) -> u128 {
        self.bank_id
    }

    fn branch_of(&self) -> (r: u128) {
        self.branch_id
    }

    fn bank_of(&self) -> (r: u128) {
        self.bank_id
    }
}

impl Keyed for Transfer {
    open spec fn row_id(&self) -> u128 {
        self.id
    }

    fn id_of(&self) -> (r: u128) {
        self.id
    }
}

impl Owned for Transfer {
    open spec fn row_branch(&self) -> u128 {
        self.branch_id
    }

    open spec fn row_bank(&self) -> u128 {
        self.bank_id
    }

    fn branch_of(&self) -> (r: u128) {
        self.branch_id
    }

    fn bank_of(&self) -> (r: u128) {
        self.bank_id
    }
}

impl Keyed for Hold {
    open spec fn row_id(&self) -> u128 {
        self.id
    }

    fn id_of(&self) -> (r: u128) {
        self.id
    }
}

impl Owned for Hold {
    open spec fn row_branch(&self) -> u128 {
        self.branch_id
    }

    open spec fn row_bank(&self) -> u128 {
        self.bank_id
    }

    fn branch_of(&self) -> (r: u128) {
        self.branch_id
    }

    fn bank_of(&self) -> (r: u128) {
        self.bank_id
    }
}

} // verus!
