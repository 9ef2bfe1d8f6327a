use vstd::prelude::*;

use crate::aggregates::{
    find_key, has_key, key_index, lemma_counts_push, lemma_counts_same_owners, lemma_has_key_push,
    lemma_key_index, lemma_keys_distinct_push, lemma_keys_distinct_update,
    lemma_push_counts_elsewhere, same_owners,
};
use crate::entities::{Account, Card, Customer, Keyed, Owned};
use crate::ids::{account_number_for, account_number_text, draw_account_serial, MAX_ACCOUNT_SERIAL};
use crate::ledger::{counts_kept_except, lemma_recount_restores, Ledger, LedgerError};
use crate::text::trimmed;
use crate::types::{date_le, next_status, AccountType, CardStatus, CardType, Date};
use crate::validation::{
    card_number_ok, cic_ok, cvv_ok, email_ok, phone_ok, rejected_with, validate_account_balance,
    validate_account_opened_date, validate_card_expiration_date, validate_card_number,
    validate_cic_number, validate_customer_name, validate_cvv, validate_email,
    validate_phone_number, ValidationResult,
};

verus! {

/// The branch `branch_id` is stored and belongs to the bank `bank_id`.
pub open spec fn branch_in_bank(ledger: Ledger, branch_id: u128, bank_id: u128) -> bool {
    has_key(ledger.branches@, branch_id) && ledger.branches@[key_index(
        ledger.branches@,
        branch_id,
    )].bank_id == bank_id
}

/// The reason of the first check that a new customer's fields fail, in the
/// order name, e-mail, phone number, identity number.
pub open spec fn customer_input_error(
    name: Seq<char>,
    email: Seq<char>,
    phone: Seq<char>,
    cic: Seq<char>,
) -> Option<Seq<char>> {
    if trimmed(name).len() == 0 {
        Some("Customer name cannot be empty."@)
    } else if name.len() > 100 {
        Some("Customer name cannot exceed 100 characters."@)
    } else if !email_ok(email) {
        Some("Invalid email format."@)
    } else if !phone_ok(phone) {
        Some("Invalid phone number format."@)
    } else if !cic_ok(cic) {
        Some("Invalid CIC number format or length."@)
    } else {
        None
    }
}

/// A customer of bank `bank_id` already has the identity number `cic`.
pub open spec fn cic_taken(customers: Seq<Customer>, bank_id: u128, cic: Seq<char>) -> bool {
    exists|i: int|
        0 <= i < customers.len() && (#[trigger] customers[i]).bank_id == bank_id
            && customers[i].cic_number@ == cic
}

/// Identity numbers are unique per bank only: registering a customer in
/// one bank leaves every identity number as free or taken in any other bank
/// as it was.
pub proof fn lemma_cic_scoped_to_bank(
    customers: Seq<Customer>,
    c: Customer,
    other_bank: u128,
    cic: Seq<char>,
)
    requires
        c.bank_id != other_bank,
    ensures
        cic_taken(customers.push(c), other_bank, cic) == cic_taken(customers, other_bank, cic),
{
    if cic_taken(customers, other_bank, cic) {
        let i = choose|i: int|
            0 <= i < customers.len() && (#[trigger] customers[i]).bank_id == other_bank
                && customers[i].cic_number@ == cic;
        assert(customers.push(c)[i] == customers[i]);
    }
    if cic_taken(customers.push(c), other_bank, cic) {
        let i = choose|i: int|
            0 <= i < customers.push(c).len() && (#[trigger] customers.push(c)[i]).bank_id
                == other_bank && customers.push(c)[i].cic_number@ == cic;
        assert(i < customers.len());
        assert(customers.push(c)[i] == customers[i]);
    }
}

pub(crate) fn reason_of(v: ValidationResult) -> (r: String)
    ensures
        forall|m: Seq<char>| rejected_with(v, m) ==> r@ == m,
{
    match v.error_message {
        Some(m) => m,
        None => String::new(),
    }
}

pub(crate) fn copy_customer(c: &Customer) -> (r: Customer)
    ensures
        r == *c,
{
    Customer {
        branch_id: c.branch_id,
        bank_id: c.bank_id,
        id: c.id,
        customer_name: c.customer_name.clone(),
        email: c.email.clone(),
        phone_number: c.phone_number.clone(),
        cic_number: c.cic_number.clone(),
    }
}

impl Ledger {
    fn cic_in_use(&self, bank_id: u128, cic: &String) -> (r: bool)
        ensures
            r == cic_taken(self.customers@, bank_id, cic@),
    {
        let mut i: usize = 0;
        while i < self.customers.len()
            invariant
                i <= self.customers@.len(),
                forall|j: int|
                    0 <= j < i ==> !((#[trigger] self.customers@[j]).bank_id == bank_id
                        && self.customers@[j].cic_number@ == cic@),
            decreases self.customers@.len() - i,
        {
            if self.customers[i].bank_id == bank_id && self.customers[i].cic_number == *cic {
                return true;
            }
            i = i + 1;
        }
        false
    }

    /// Registers a customer of branch `branch_id` of bank `bank_id`. The bank
    /// is looked up first, then the branch within it, then the fields are
    /// checked; the identity number must be new to the bank.
    pub fn create_customer(
        &mut self,
        branch_id: u128,
        bank_id: u128,
        customer_id: u128,
        customer_name: String,
        email: String,
        phone_number: String,
        cic_number: String,
    ) -> (r: Result<Customer, LedgerError>)
        requires
            old(self).wf(),
        ensures
            final(self).wf(),
            old(self).money_balanced() ==> final(self).money_balanced(),
            r is Err ==> *final(self) == *old(self),
            !has_key(old(self).banks@, bank_id) ==> r == Err::<Customer, LedgerError>(
                LedgerError::BankNotFound,
            ),
            has_key(old(self).banks@, bank_id) && !branch_in_bank(*old(self), branch_id, bank_id)
                ==> r == Err::<Customer, LedgerError>(LedgerError::BranchNotFound),
            ({
                let err = customer_input_error(
                    customer_name@,
                    email@,
                    phone_number@,
                    cic_number@,
                );
                let ready = has_key(old(self).banks@, bank_id) && branch_in_bank(
                    *old(self),
                    branch_id,
                    bank_id,
                );
                &&& ready && err is Some ==> (r matches Err(LedgerError::InvalidInput(m)) && m@
                    == err->0)
                &&& ready && err is None && cic_taken(old(self).customers@, bank_id, cic_number@)
                    ==> r == Err::<Customer, LedgerError>(LedgerError::DuplicateCic)
                &&& ready && err is None && !cic_taken(old(self).customers@, bank_id, cic_number@)
                    && has_key(old(self).customers@, customer_id) ==> r == Err::<
                    Customer,
                    LedgerError,
                >(LedgerError::DuplicateId)
                &&& ready && err is None && !cic_taken(old(self).customers@, bank_id, cic_number@)
                    && !has_key(old(self).customers@, customer_id) ==> {
                    let bi = key_index(old(self).branches@, branch_id);
                    let ki = key_index(old(self).banks@, bank_id);
                    &&& r == Ok::<Customer, LedgerError>(
                        Customer {
                            branch_id,
                            bank_id,
                            id: customer_id,
                            customer_name,
                            email,
                            phone_number,
                            cic_number,
                        },
                    )
                    &&& final(self).customers@ == old(self).customers@.push(r->Ok_0)
                    &&& final(self).branches@[bi].total_customers
                        == old(self).branches@[bi].total_customers + 1
                    &&& final(self).banks@[ki].total_customers
                        == old(self).banks@[ki].total_customers + 1
                }
            }),
    {
        let ki = match find_key(&self.banks, bank_id) {
            Some(k) => k,
            None => {
                return Err(LedgerError::BankNotFound);
            },
        };
        proof {
            lemma_key_index(self.banks@, ki as int);
        }
        let bi = match find_key(&self.branches, branch_id) {
            Some(b) => b,
            None => {
                return Err(LedgerError::BranchNotFound);
            },
        };
        proof {
            lemma_key_index(self.branches@, bi as int);
        }
        if self.branches[bi].bank_id != bank_id {
            return Err(LedgerError::BranchNotFound);
        }
        let v = validate_customer_name(customer_name.as_str());
        if !v.is_valid {
            return Err(LedgerError::InvalidInput(reason_of(v)));
        }
        let v = validate_email(email.as_str());
        if !v.is_valid {
            return Err(LedgerError::InvalidInput(reason_of(v)));
        }
        let v = validate_phone_number(phone_number.as_str());
        if !v.is_valid {
            return Err(LedgerError::InvalidInput(reason_of(v)));
        }
        let v = validate_cic_number(cic_number.as_str());
        if !v.is_valid {
            return Err(LedgerError::InvalidInput(reason_of(v)));
        }
        if self.cic_in_use(bank_id, &cic_number) {
            return Err(LedgerError::DuplicateCic);
        }
        if find_key(&self.customers, customer_id).is_some() {
            return Err(LedgerError::DuplicateId);
        }
        let customer = Customer {
            branch_id,
            bank_id,
            id: customer_id,
            customer_name,
            email,
            phone_number,
            cic_number,
        };
        let result = copy_customer(&customer);
        let ghost pre = *self;
        proof {
            lemma_keys_distinct_push(pre.customers@, customer);
            lemma_push_counts_elsewhere(pre.customers@, customer);
            lemma_has_key_push(pre.customers@, customer);
        }
        self.customers.push(customer);
        let ghost mid = *self;
        proof {
            assert(counts_kept_except(pre, mid, pre.branches@[bi as int].id, pre.banks@[ki as int].id));
        }
        self.recount(bi, ki);
        proof {
            lemma_recount_restores(pre, mid, *self, bi as int, ki as int);
            lemma_counts_push(pre.customers@, customer, branch_id);
            lemma_counts_push(pre.customers@, customer, bank_id);
            assert(pre.branch_rollups_ok(pre.branches@[bi as int]));
            assert(pre.bank_rollups_ok(pre.banks@[ki as int]));
            assert(self.customers@[pre.customers@.len() as int] == customer);
            assert forall|j: int| 0 <= j < pre.customers@.len() implies self.customers@[j]
                == pre.customers@[j] by {}
            assert forall|i: int, j: int|
                0 <= i < self.customers@.len() && 0 <= j < self.customers@.len() && i != j && (
                #[trigger] self.customers@[i]).bank_id == (#[trigger] self.customers@[j]).bank_id
                implies self.customers@[i].cic_number@ != self.customers@[j].cic_number@ by {
                if i == pre.customers@.len() {
                    assert(!(pre.customers@[j].bank_id == bank_id && pre.customers@[j].cic_number@
                        == customer.cic_number@));
                } else if j == pre.customers@.len() {
                    assert(!(pre.customers@[i].bank_id == bank_id && pre.customers@[i].cic_number@
                        == customer.cic_number@));
                }
            }
        }
        Ok(result)
    }
}

/// Some account of `accounts` has the number `number`.
pub open spec fn account_number_taken(accounts: Seq<Account>, number: Seq<char>) -> bool {
    exists|i: int| 0 <= i < accounts.len() && (#[trigger] accounts[i]).account_number@ == number
}

/// The account that `insert_account` stores for these inputs.
pub open spec fn new_account_ok(
    a: Account,
    customer: Customer,
    account_id: u128,
    account_type: AccountType,
    balance: i32,
    opened_date: Date,
    today: Date,
) -> bool {
    &&& a.branch_id == customer.branch_id
    &&& a.bank_id == customer.bank_id
    &&& a.id == account_id
    &&& a.balance == balance as i64
    &&& a.account_type == account_type
    &&& a.customer_id == customer.id
    &&& a.opened_date == opened_date
    &&& a.last_updated_date == today
}

pub(crate) fn copy_account(a: &Account) -> (r: Account)
    ensures
        r == *a,
{
    Account {
        branch_id: a.branch_id,
        bank_id: a.bank_id,
        id: a.id,
        account_number: a.account_number.clone(),
        balance: a.balance,
        account_type: a.account_type,
        customer_id: a.customer_id,
        opened_date: a.opened_date,
        last_updated_date: a.last_updated_date,
    }
}

/// No serial a draw can give leads to an account number already in use.
pub open spec fn numbers_free(accounts: Seq<Account>) -> bool {
    forall|s: u64|
        s <= MAX_ACCOUNT_SERIAL ==> !account_number_taken(accounts, #[trigger] account_number_text(s))
}

/// How many serials `open_account` draws before it gives up.
pub const ACCOUNT_NUMBER_ATTEMPTS: u32 = 8;

impl Ledger {
    pub(crate) fn account_number_in_use(&self, number: &String) -> (r: bool)
        ensures
            r == account_number_taken(self.accounts@, number@),
    {
        let mut i: usize = 0;
        while i < self.accounts.len()
            invariant
                i <= self.accounts@.len(),
                forall|j: int|
                    0 <= j < i ==> (#[trigger] self.accounts@[j]).account_number@ != number@,
            decreases self.accounts@.len() - i,
        {
            if self.accounts[i].account_number == *number {
                return true;
            }
            i = i + 1;
        }
        false
    }

    /// Opens an account for customer `customer_id` in the customer's branch,
    /// numbered from `serial` (see `account_number_text`).
    pub fn insert_account(
        &mut self,
        customer_id: u128,
        account_id: u128,
        account_type: AccountType,
        balance: i32,
        opened_date: Date,
        today: Date,
        serial: u64,
    ) -> (r: Result<Account, LedgerError>)
        requires
            old(self).wf(),
        ensures
            final(self).wf(),
            old(self).money_balanced() ==> final(self).money_balanced(),
            r is Err ==> *final(self) == *old(self),
            balance < 0 ==> (r matches Err(LedgerError::InvalidInput(m)) && m@
                == "Account balance cannot be negative."@),
            balance >= 0 && !date_le(opened_date, today) ==> (r matches Err(
                LedgerError::InvalidInput(m),
            ) && m@ == "Account cannot be opened in the future."@),
            balance >= 0 && date_le(opened_date, today) && !has_key(old(self).customers@, customer_id)
                ==> r == Err::<Account, LedgerError>(LedgerError::CustomerNotFound),
            balance >= 0 && date_le(opened_date, today) && has_key(old(self).customers@, customer_id)
                && has_key(old(self).accounts@, account_id) ==> r == Err::<Account, LedgerError>(
                LedgerError::DuplicateId,
            ),
            balance >= 0 && date_le(opened_date, today) && has_key(old(self).customers@, customer_id)
                && !has_key(old(self).accounts@, account_id) && account_number_taken(
                old(self).accounts@,
                account_number_text(serial),
            ) ==> r == Err::<Account, LedgerError>(LedgerError::DuplicateAccountNumber),
            balance >= 0 && date_le(opened_date, today) && has_key(old(self).customers@, customer_id)
                && !has_key(old(self).accounts@, account_id) && !account_number_taken(
                old(self).accounts@,
                account_number_text(serial),
            ) ==> {
                let c = old(self).customers@[key_index(old(self).customers@, customer_id)];
                let bi = key_index(old(self).branches@, c.branch_id);
                let ki = key_index(old(self).banks@, c.bank_id);
                &&& r is Ok
                &&& new_account_ok(
                    r->Ok_0,
                    c,
                    account_id,
                    account_type,
                    balance,
                    opened_date,
                    today,
                )
                &&& r->Ok_0.account_number@ == account_number_text(serial)
                &&& final(self).accounts@ == old(self).accounts@.push(r->Ok_0)
                &&& final(self).branches@[bi].total_accounts
                    == old(self).branches@[bi].total_accounts + 1
                &&& final(self).banks@[ki].total_accounts == old(self).banks@[ki].total_accounts
                    + 1
            },
    {
        let v = validate_account_balance(balance);
        if !v.is_valid {
            return Err(LedgerError::InvalidInput(reason_of(v)));
        }
        let v = validate_account_opened_date(opened_date, today);
        if !v.is_valid {
            return Err(LedgerError::InvalidInput(reason_of(v)));
        }
        let ci = match find_key(&self.customers, customer_id) {
            Some(i) => i,
            None => {
                return Err(LedgerError::CustomerNotFound);
            },
        };
        proof {
            lemma_key_index(self.customers@, ci as int);
        }
        if find_key(&self.accounts, account_id).is_some() {
            return Err(LedgerError::DuplicateId);
        }
        let account_number = account_number_for(serial);
        if self.account_number_in_use(&account_number) {
            return Err(LedgerError::DuplicateAccountNumber);
        }
        let branch_id = self.customers[ci].branch_id;
        let bank_id = self.customers[ci].bank_id;
        assert(has_key(self.branches@, self.customers@[ci as int].row_branch()));
        let bi = match find_key(&self.branches, branch_id) {
            Some(i) => i,
            None => {
                return Err(LedgerError::BranchNotFound);
            },
        };
        let ki = match find_key(&self.banks, bank_id) {
            Some(i) => i,
            None => {
                return Err(LedgerError::BankNotFound);
            },
        };
        proof {
            lemma_key_index(self.branches@, bi as int);
            lemma_key_index(self.banks@, ki as int);
        }
        let account = Account {
            branch_id,
            bank_id,
            id: account_id,
            account_number,
            balance: balance as i64,
            account_type,
            customer_id,
            opened_date,
            last_updated_date: today,
        };
        let result = copy_account(&account);
        let ghost pre = *self;
        proof {
            lemma_keys_distinct_push(pre.accounts@, account);
            lemma_push_counts_elsewhere(pre.accounts@, account);
        }
        self.accounts.push(account);
        let ghost mid = *self;
        proof {
            assert(counts_kept_except(
                pre,
                mid,
                pre.branches@[bi as int].id,
                pre.banks@[ki as int].id,
            ));
        }
        self.recount(bi, ki);
        proof {
            lemma_recount_restores(pre, mid, *self, bi as int, ki as int);
            lemma_counts_push(pre.accounts@, account, branch_id);
            lemma_counts_push(pre.accounts@, account, bank_id);
            assert(pre.branch_rollups_ok(pre.branches@[bi as int]));
            assert(pre.bank_rollups_ok(pre.banks@[ki as int]));
            assert(self.accounts@[pre.accounts@.len() as int] == account);
            assert forall|j: int| 0 <= j < pre.accounts@.len() implies self.accounts@[j]
                == pre.accounts@[j] by {}
            assert forall|i: int, j: int|
                0 <= i < self.accounts@.len() && 0 <= j < self.accounts@.len() && i != j
                implies (#[trigger] self.accounts@[i]).account_number@
                != (#[trigger] self.accounts@[j]).account_number@ by {
                if i == pre.accounts@.len() {
                    assert(pre.accounts@[j].account_number@ != account.account_number@);
                } else if j == pre.accounts@.len() {
                    assert(pre.accounts@[i].account_number@ != account.account_number@);
                }
            }
        }
        Ok(result)
    }

    /// Opens an account as `insert_account` does, drawing a random serial for
    /// its number and drawing again while the number is taken, at most
    /// `ACCOUNT_NUMBER_ATTEMPTS` times.
    pub fn open_account(
        &mut self,
        customer_id: u128,
        account_id: u128,
        account_type: AccountType,
        balance: i32,
        opened_date: Date,
        today: Date,
    ) -> (r: Result<Account, LedgerError>)
        requires
            old(self).wf(),
        ensures
            final(self).wf(),
            old(self).money_balanced() ==> final(self).money_balanced(),
            r is Err ==> *final(self) == *old(self),
            balance < 0 ==> (r matches Err(LedgerError::InvalidInput(m)) && m@
                == "Account balance cannot be negative."@),
            balance >= 0 && !date_le(opened_date, today) ==> (r matches Err(
                LedgerError::InvalidInput(m),
            ) && m@ == "Account cannot be opened in the future."@),
            balance >= 0 && date_le(opened_date, today) && !has_key(old(self).customers@, customer_id)
                ==> r == Err::<Account, LedgerError>(LedgerError::CustomerNotFound),
            balance >= 0 && date_le(opened_date, today) && has_key(old(self).customers@, customer_id)
                && has_key(old(self).accounts@, account_id) ==> r == Err::<Account, LedgerError>(
                LedgerError::DuplicateId,
            ),
            balance >= 0 && date_le(opened_date, today) && has_key(old(self).customers@, customer_id)
                && !has_key(old(self).accounts@, account_id) ==> r is Ok || r
                == Err::<Account, LedgerError>(LedgerError::NumbersExhausted),
            balance >= 0 && date_le(opened_date, today) && has_key(old(self).customers@, customer_id)
                && !has_key(old(self).accounts@, account_id) && numbers_free(old(self).accounts@)
                ==> r is Ok,
            r is Ok ==> {
                let c = old(self).customers@[key_index(old(self).customers@, customer_id)];
                &&& has_key(old(self).customers@, customer_id)
                &&& new_account_ok(
                    r->Ok_0,
                    c,
                    account_id,
                    account_type,
                    balance,
                    opened_date,
                    today,
                )
                &&& exists|serial: u64|
                    serial <= MAX_ACCOUNT_SERIAL && r->Ok_0.account_number@ == account_number_text(
                        serial,
                    )
                &&& !account_number_taken(old(self).accounts@, r->Ok_0.account_number@)
                &&& final(self).accounts@ == old(self).accounts@.push(r->Ok_0)
            },
    {
        let mut attempt: u32 = 0;
        while attempt < ACCOUNT_NUMBER_ATTEMPTS
            invariant
                self.wf(),
                attempt <= ACCOUNT_NUMBER_ATTEMPTS,
                *self == *old(self),
                attempt > 0 ==> balance >= 0 && date_le(opened_date, today) && has_key(
                    old(self).customers@,
                    customer_id,
                ) && !has_key(old(self).accounts@, account_id) && !numbers_free(
                    old(self).accounts@,
                ),
            decreases ACCOUNT_NUMBER_ATTEMPTS - attempt,
        {
            let serial = draw_account_serial();
            let r = self.insert_account(
                customer_id,
                account_id,
                account_type,
                balance,
                opened_date,
                today,
                serial,
            );
            match r {
                Err(LedgerError::DuplicateAccountNumber) => {},
                _ => {
                    return r;
                },
            }
            attempt = attempt + 1;
        }
        Err(LedgerError::NumbersExhausted)
    }
}

/// Some card of `cards` has the number `number`.
pub open spec fn card_number_taken(cards: Seq<Card>, number: Seq<char>) -> bool {
    exists|i: int| 0 <= i < cards.len() && (#[trigger] cards[i]).card_number@ == number
}

/// The reason of the first check that a new card's fields fail: the number
/// (its shape and checksum), the verification value, the dates, the balance.
pub open spec fn card_input_error(
    card_number: Seq<char>,
    cvv: Seq<char>,
    issued_date: Date,
    expiration_date: Date,
    balance: i32,
) -> Option<Seq<char>> {
    if !card_number_ok(card_number) {
        Some("Invalid card number format or length."@)
    } else if !cvv_ok(cvv) {
        Some("Invalid CVV format or length."@)
    } else if !date_le(issued_date, expiration_date) {
        Some("Card has expired."@)
    } else if balance < 0 {
        Some("Account balance cannot be negative."@)
    } else {
        None
    }
}

pub(crate) fn copy_card(c: &Card) -> (r: Card)
    ensures
        r == *c,
{
    Card {
        id: c.id,
        card_number: c.card_number.clone(),
        account_number: c.account_number.clone(),
        expiration_date: c.expiration_date,
        cvv: c.cvv.clone(),
        issued_date: c.issued_date,
        balance: c.balance,
        card_status: c.card_status,
        card_type: c.card_type,
        bank_id: c.bank_id,
        branch_id: c.branch_id,
    }
}

/// `c` with the status `s`.
pub open spec fn with_status(c: Card, s: CardStatus) -> Card {
    Card { card_status: s, ..c }
}

impl Ledger {
    fn card_number_in_use(&self, number: &String) -> (r: bool)
        ensures
            r == card_number_taken(self.cards@, number@),
    {
        let mut i: usize = 0;
        while i < self.cards.len()
            invariant
                i <= self.cards@.len(),
                forall|j: int| 0 <= j < i ==> (#[trigger] self.cards@[j]).card_number@ != number@,
            decreases self.cards@.len() - i,
        {
            if self.cards[i].card_number == *number {
                return true;
            }
            i = i + 1;
        }
        false
    }

    /// Issues an active card on account `account_id`, in the account's branch.
    pub fn issue_card(
        &mut self,
        account_id: u128,
        card_id: u128,
        card_number: String,
        cvv: String,
        card_type: CardType,
        issued_date: Date,
        expiration_date: Date,
        balance: i32,
    ) -> (r: Result<Card, LedgerError>)
        requires
            old(self).wf(),
        ensures
            final(self).wf(),
            old(self).money_balanced() ==> final(self).money_balanced(),
            r is Err ==> *final(self) == *old(self),
            !has_key(old(self).accounts@, account_id) ==> r == Err::<Card, LedgerError>(
                LedgerError::AccountNotFound,
            ),
            ({
                let err = card_input_error(
                    card_number@,
                    cvv@,
                    issued_date,
                    expiration_date,
                    balance,
                );
                let found = has_key(old(self).accounts@, account_id);
                let a = old(self).accounts@[key_index(old(self).accounts@, account_id)];
                &&& found && err is Some ==> (r matches Err(LedgerError::InvalidInput(m)) && m@
                    == err->0)
                &&& found && err is None && card_number_taken(old(self).cards@, card_number@) ==> r
                    == Err::<Card, LedgerError>(LedgerError::DuplicateCardNumber)
                &&& found && err is None && !card_number_taken(old(self).cards@, card_number@)
                    && has_key(old(self).cards@, card_id) ==> r == Err::<Card, LedgerError>(
                    LedgerError::DuplicateId,
                )
                &&& found && err is None && !card_number_taken(old(self).cards@, card_number@)
                    && !has_key(old(self).cards@, card_id) ==> {
                    let bi = key_index(old(self).branches@, a.branch_id);
                    let ki = key_index(old(self).banks@, a.bank_id);
                    &&& r == Ok::<Card, LedgerError>(
                        Card {
                            id: card_id,
                            card_number,
                            account_number: a.account_number,
                            expiration_date,
                            cvv,
                            issued_date,
                            balance: balance as i64,
                            card_status: CardStatus::Active,
                            card_type,
                            bank_id: a.bank_id,
                            branch_id: a.branch_id,
                        },
                    )
                    &&& final(self).cards@ == old(self).cards@.push(r->Ok_0)
                    &&& final(self).branches@[bi].total_cards == old(self).branches@[bi].total_cards
                        + 1
                    &&& final(self).banks@[ki].total_cards == old(self).banks@[ki].total_cards + 1
                }
            }),
    {
        let ai = match find_key(&self.accounts, account_id) {
            Some(i) => i,
            None => {
                return Err(LedgerError::AccountNotFound);
            },
        };
        proof {
            lemma_key_index(self.accounts@, ai as int);
        }
        let v = validate_card_number(card_number.as_str());
        if !v.is_valid {
            return Err(LedgerError::InvalidInput(reason_of(v)));
        }
        let v = validate_cvv(cvv.as_str());
        if !v.is_valid {
            return Err(LedgerError::InvalidInput(reason_of(v)));
        }
        let v = validate_card_expiration_date(expiration_date, issued_date);
        if !v.is_valid {
            return Err(LedgerError::InvalidInput(reason_of(v)));
        }
        let v = validate_account_balance(balance);
        if !v.is_valid {
            return Err(LedgerError::InvalidInput(reason_of(v)));
        }
        if self.card_number_in_use(&card_number) {
            return Err(LedgerError::DuplicateCardNumber);
        }
        if find_key(&self.cards, card_id).is_some() {
            return Err(LedgerError::DuplicateId);
        }
        let branch_id = self.accounts[ai].branch_id;
        let bank_id = self.accounts[ai].bank_id;
        assert(has_key(self.branches@, self.accounts@[ai as int].row_branch()));
        let bi = match find_key(&self.branches, branch_id) {
            Some(i) => i,
            None => {
                return Err(LedgerError::BranchNotFound);
            },
        };
        let ki = match find_key(&self.banks, bank_id) {
            Some(i) => i,
            None => {
                return Err(LedgerError::BankNotFound);
            },
        };
        proof {
            lemma_key_index(self.branches@, bi as int);
            lemma_key_index(self.banks@, ki as int);
        }
        let card = Card {
            id: card_id,
            card_number,
            account_number: self.accounts[ai].account_number.clone(),
            expiration_date,
            cvv,
            issued_date,
            balance: balance as i64,
            card_status: CardStatus::Active,
            card_type,
            bank_id,
            branch_id,
        };
        let result = copy_card(&card);
        let ghost pre = *self;
        proof {
            lemma_keys_distinct_push(pre.cards@, card);
            lemma_push_counts_elsewhere(pre.cards@, card);
        }
        self.cards.push(card);
        let ghost mid = *self;
        proof {
            assert(counts_kept_except(
                pre,
                mid,
                pre.branches@[bi as int].id,
                pre.banks@[ki as int].id,
            ));
        }
        self.recount(bi, ki);
        proof {
            lemma_recount_restores(pre, mid, *self, bi as int, ki as int);
            lemma_counts_push(pre.cards@, card, branch_id);
            lemma_counts_push(pre.cards@, card, bank_id);
            assert(pre.branch_rollups_ok(pre.branches@[bi as int]));
            assert(pre.bank_rollups_ok(pre.banks@[ki as int]));
            assert(self.cards@[pre.cards@.len() as int] == card);
            assert forall|j: int| 0 <= j < pre.cards@.len() implies self.cards@[j]
                == pre.cards@[j] by {}
            assert forall|i: int, j: int|
                0 <= i < self.cards@.len() && 0 <= j < self.cards@.len() && i != j
                implies (#[trigger] self.cards@[i]).card_number@
                != (#[trigger] self.cards@[j]).card_number@ by {
                if i == pre.cards@.len() {
                    assert(pre.cards@[j].card_number@ != card.card_number@);
                } else if j == pre.cards@.len() {
                    assert(pre.cards@[i].card_number@ != card.card_number@);
                }
            }
        }
        Ok(result)
    }

    /// Moves the card `card_id` one step along `Active`, `Inactive`,
    /// `Closed`; a closed card stays closed.
    pub fn set_card_status(&mut self, card_id: u128, to: CardStatus) -> (r: Result<(), LedgerError>)
        requires
            old(self).wf(),
        ensures
            final(self).wf(),
            old(self).money_balanced() ==> final(self).money_balanced(),
            r is Err ==> *final(self) == *old(self),
            !has_key(old(self).cards@, card_id) ==> r == Err::<(), LedgerError>(
                LedgerError::CardNotFound,
            ),
            ({
                let ci = key_index(old(self).cards@, card_id);
                let c = old(self).cards@[ci];
                &&& has_key(old(self).cards@, card_id) && next_status(c.card_status) != Some(to)
                    ==> r == Err::<(), LedgerError>(LedgerError::IllegalStatusChange)
                &&& has_key(old(self).cards@, card_id) && next_status(c.card_status) == Some(to)
                    ==> r is Ok && final(self).cards@ == old(self).cards@.update(
                    ci,
                    with_status(c, to),
                ) && final(self).banks == old(self).banks && final(self).branches
                    == old(self).branches && final(self).accounts == old(self).accounts
            }),
    {
        let ci = match find_key(&self.cards, card_id) {
            Some(i) => i,
            None => {
                return Err(LedgerError::CardNotFound);
            },
        };
        proof {
            lemma_key_index(self.cards@, ci as int);
        }
        if !self.cards[ci].card_status.can_become(to) {
            return Err(LedgerError::IllegalStatusChange);
        }
        let ghost pre = *self;
        self.cards[ci].card_status = to;
        proof {
            let c = pre.cards@[ci as int];
            assert(self.cards@ =~= pre.cards@.update(ci as int, with_status(c, to)));
            assert(same_owners(pre.cards@, self.cards@));
            lemma_keys_distinct_update(pre.cards@, ci as int, with_status(c, to));
            assert forall|i: int| 0 <= i < self.branches@.len() implies self.branch_rollups_ok(
                #[trigger] self.branches@[i],
            ) by {
                assert(pre.branch_rollups_ok(pre.branches@[i]));
                lemma_counts_same_owners(pre.cards@, self.cards@, pre.branches@[i].id);
            }
            assert forall|i: int| 0 <= i < self.banks@.len() implies self.bank_rollups_ok(
                #[trigger] self.banks@[i],
            ) by {
                assert(pre.bank_rollups_ok(pre.banks@[i]));
                lemma_counts_same_owners(pre.cards@, self.cards@, pre.banks@[i].id);
            }
            assert forall|i: int, j: int|
                0 <= i < self.cards@.len() && 0 <= j < self.cards@.len() && i != j
                implies (#[trigger] self.cards@[i]).card_number@
                != (#[trigger] self.cards@[j]).card_number@ by {
                assert(pre.cards@[i].card_number@ != pre.cards@[j].card_number@);
            }
        }
        Ok(())
    }
}

} // verus!
