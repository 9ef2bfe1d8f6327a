use vstd::prelude::*;
use vstd::string::StringExecFns;

use crate::aggregates::{
    branch_counter_sum, branch_sum, lemma_bank_count_by_branches, lemma_counter_sum_is_count_sum,
    BranchTotal, Counter,
    branch_money, count_bank_rows, count_branch_rows, count_in_bank, count_in_branch, find_key,
    has_key, key_index, keys_distinct, lemma_count_bounded, lemma_counts_unowned,
    lemma_has_key_push, lemma_has_key_update, lemma_key_index, lemma_keys_distinct_push,
    lemma_keys_distinct_update, lemma_money_push, lemma_money_unowned, lemma_money_update,
};
use crate::entities::{
    Account, Bank, Branch, Card, Customer, Hold, Keyed, Owned, Refund, Transaction, Transfer,
};
use crate::ids::{branch_name_for, branch_name_of};

verus! {

/// Why a ledger operation was turned down. Nothing is written when one is.
#[derive(Debug, Clone, PartialEq, Eq)]
pub enum LedgerError {
    /// A field failed its check; the text says which rule.
    InvalidInput(String),
    BankNotFound,
    BranchNotFound,
    CustomerNotFound,
    AccountNotFound,
    CardNotFound,
    TransactionNotFound,
    /// The identifier is already taken by a row of the same kind.
    DuplicateId,
    /// A customer with this identity number already exists in the bank.
    DuplicateCic,
    DuplicateCardNumber,
    DuplicateAccountNumber,
    /// The card already has a payment on file: that payment.
    DuplicatePayment(Transaction),
    DuplicateRefund,
    DuplicateHold,
    /// The card's balance is below the amount.
    InsufficientFunds,
    /// The card is not active, or is closed where a payment is concerned.
    CardNotActive,
    /// The card's status may not move that way.
    IllegalStatusChange,
    /// A refund larger than its transaction.
    RefundExceedsAmount,
    /// The card is not issued on that account.
    CardAccountMismatch,
    /// A balance or total would leave the range it is kept in.
    Overflow,
    /// No free account number was found in the attempts allowed.
    NumbersExhausted,
}

/// All stored rows, one table per kind.
pub struct Ledger {
    pub banks: Vec<Bank>,
    pub branches: Vec<Branch>,
    pub customers: Vec<Customer>,
    pub accounts: Vec<Account>,
    pub cards: Vec<Card>,
    pub transactions: Vec<Transaction>,
    pub refunds: Vec<Refund>,
    pub transfers: Vec<Transfer>,
    pub holds: Vec<Hold>,
}

/// The smallest pre-deposit a branch may be created with.
pub const MIN_PRE_DEPOSIT: i32 = 300000;

impl Ledger {
    /// The four counters of `br` equal the live rows of its branch.
    pub open spec fn branch_rollups_ok(&self, br: Branch) -> bool {
        &&& br.total_customers == count_in_branch(self.customers@, br.id)
        &&& br.total_accounts == count_in_branch(self.accounts@, br.id)
        &&& br.total_cards == count_in_branch(self.cards@, br.id)
        &&& br.total_transactions == count_in_branch(self.transactions@, br.id)
    }

    /// The four counters of `bk` equal the live rows of its bank.
    pub open spec fn bank_rollups_ok(&self, bk: Bank) -> bool {
        &&& bk.total_customers == count_in_bank(self.customers@, bk.id)
        &&& bk.total_accounts == count_in_bank(self.accounts@, bk.id)
        &&& bk.total_cards == count_in_bank(self.cards@, bk.id)
        &&& bk.total_transactions == count_in_bank(self.transactions@, bk.id)
    }

    /// Every branch and bank counter equals the number of live rows under it.
    pub open spec fn rollups_ok(&self) -> bool {
        &&& forall|i: int|
            0 <= i < self.branches@.len() ==> self.branch_rollups_ok(#[trigger] self.branches@[i])
        &&& forall|j: int|
            0 <= j < self.banks@.len() ==> self.bank_rollups_ok(#[trigger] self.banks@[j])
    }

    /// Every bank holds exactly the money of its branches.
    pub open spec fn money_balanced(&self) -> bool {
        forall|j: int|
            0 <= j < self.banks@.len() ==> (#[trigger] self.banks@[j]).total_money as int
                == branch_money(self.branches@, self.banks@[j].id)
    }

    /// Every bank's debt to collect and loans given are the sums over its
    /// branches.
    pub open spec fn side_totals_ok(&self) -> bool {
        forall|j: int|
            0 <= j < self.banks@.len() ==> (#[trigger] self.banks@[j]).total_debt_to_collect as int
                == branch_sum(self.branches@, self.banks@[j].id, BranchTotal::Debt)
                && self.banks@[j].total_loans_given as int == branch_sum(
                self.branches@,
                self.banks@[j].id,
                BranchTotal::Loans,
            )
    }

    /// The rows of `s` belong to stored branches and banks, and each row's
    /// branch belongs to the row's bank.
    pub open spec fn owners_stored<T: Owned>(&self, s: Seq<T>) -> bool {
        &&& forall|i: int|
            0 <= i < s.len() ==> has_key(self.branches@, (#[trigger] s[i]).row_branch())
                && has_key(self.banks@, s[i].row_bank())
        &&& forall|i: int, j: int|
            0 <= i < s.len() && 0 <= j < self.branches@.len() && (#[trigger] self.branches@[j]).id
                == (#[trigger] s[i]).row_branch() ==> self.branches@[j].bank_id == s[i].row_bank()
    }

    /// The identifiers of every table are unique.
    pub open spec fn keys_ok(&self) -> bool {
        &&& keys_distinct(self.banks@)
        &&& keys_distinct(self.branches@)
        &&& keys_distinct(self.customers@)
        &&& keys_distinct(self.accounts@)
        &&& keys_distinct(self.cards@)
        &&& keys_distinct(self.transactions@)
        &&& keys_distinct(self.refunds@)
        &&& keys_distinct(self.transfers@)
        &&& keys_distinct(self.holds@)
    }

    /// Every row refers to rows that are stored.
    pub open spec fn refs_ok(&self) -> bool {
        &&& forall|i: int|
            0 <= i < self.branches@.len() ==> has_key(
                self.banks@,
                (#[trigger] self.branches@[i]).bank_id,
            )
        &&& self.owners_stored(self.customers@)
        &&& self.owners_stored(self.accounts@)
        &&& self.owners_stored(self.cards@)
        &&& self.owners_stored(self.transactions@)
    }

    /// Account and card balances are never negative.
    pub open spec fn balances_ok(&self) -> bool {
        &&& forall|i: int| 0 <= i < self.accounts@.len() ==> (#[trigger] self.accounts@[i]).balance >= 0
        &&& forall|i: int| 0 <= i < self.cards@.len() ==> (#[trigger] self.cards@[i]).balance >= 0
    }

    /// Account numbers and card numbers are unique store-wide, identity
    /// numbers unique within a bank.
    pub open spec fn numbers_ok(&self) -> bool {
        &&& forall|i: int, j: int|
            0 <= i < self.accounts@.len() && 0 <= j < self.accounts@.len() && i != j
                ==> (#[trigger] self.accounts@[i]).account_number@
                != (#[trigger] self.accounts@[j]).account_number@
        &&& forall|i: int, j: int|
            0 <= i < self.cards@.len() && 0 <= j < self.cards@.len() && i != j
                ==> (#[trigger] self.cards@[i]).card_number@
                != (#[trigger] self.cards@[j]).card_number@
        &&& forall|i: int, j: int|
            0 <= i < self.customers@.len() && 0 <= j < self.customers@.len() && i != j
                && (#[trigger] self.customers@[i]).bank_id == (#[trigger] self.customers@[j]).bank_id
                ==> self.customers@[i].cic_number@ != self.customers@[j].cic_number@
    }

    /// A refund belongs to a stored transaction, a transaction has at most one
    /// refund, and a refund never exceeds it.
    pub open spec fn refunds_ok(&self) -> bool {
        &&& forall|i: int|
            0 <= i < self.refunds@.len() ==> has_key(
                self.transactions@,
                (#[trigger] self.refunds@[i]).transaction_id,
            )
        &&& forall|i: int, j: int|
            0 <= i < self.refunds@.len() && 0 <= j < self.refunds@.len() && i != j
                ==> (#[trigger] self.refunds@[i]).transaction_id
                != (#[trigger] self.refunds@[j]).transaction_id
        &&& forall|i: int, j: int|
            0 <= i < self.refunds@.len() && 0 <= j < self.transactions@.len()
                && (#[trigger] self.refunds@[i]).transaction_id
                == (#[trigger] self.transactions@[j]).id
                ==> self.refunds@[i].refund_amount <= self.transactions@[j].amount
    }

    /// A card has at most one payment on file.
    pub open spec fn payments_ok(&self) -> bool {
        forall|i: int, j: int|
            0 <= i < self.transactions@.len() && 0 <= j < self.transactions@.len() && i != j
                ==> (#[trigger] self.transactions@[i]).card_id
                != (#[trigger] self.transactions@[j]).card_id
    }

    /// The invariants on rows, leaving the rollups aside.
    pub open spec fn rows_ok(&self) -> bool {
        &&& self.payments_ok()
        &&& self.keys_ok()
        &&& self.refs_ok()
        &&& self.balances_ok()
        &&& self.numbers_ok()
        &&& self.refunds_ok()
    }

    /// The invariants that hold after every committed operation.
    pub open spec fn wf(&self) -> bool {
        &&& self.rows_ok()
        &&& self.rollups_ok()
    }

    /// The leaf tables of `self` and `other` hold the same rows.
    pub open spec fn same_leaves(&self, other: &Ledger) -> bool {
        &&& self.customers == other.customers
        &&& self.accounts == other.accounts
        &&& self.cards == other.cards
        &&& self.transactions == other.transactions
        &&& self.refunds == other.refunds
        &&& self.transfers == other.transfers
        &&& self.holds == other.holds
    }

    /// An empty store.
    pub fn new() -> (r: Ledger)
        ensures
            r.wf(),
            r.money_balanced(),
            r.banks@.len() == 0,
            r.branches@.len() == 0,
            r.customers@.len() == 0,
            r.accounts@.len() == 0,
            r.cards@.len() == 0,
            r.transactions@.len() == 0,
            r.refunds@.len() == 0,
            r.transfers@.len() == 0,
            r.holds@.len() == 0,
    {
        Ledger {
            banks: Vec::new(),
            branches: Vec::new(),
            customers: Vec::new(),
            accounts: Vec::new(),
            cards: Vec::new(),
            transactions: Vec::new(),
            refunds: Vec::new(),
            transfers: Vec::new(),
            holds: Vec::new(),
        }
    }
}

/// A new bank: all its rollups start at zero.
pub open spec fn fresh_bank(id: u128, bank_name: String, fee: i32) -> Bank {
    Bank {
        id,
        bank_name,
        fee,
        total_money: 0,
        total_debt_to_collect: 0,
        total_loans_given: 0,
        total_cards: 0,
        total_accounts: 0,
        total_transactions: 0,
        total_customers: 0,
    }
}

impl Ledger {
    /// Adds a bank with all its rollups at zero, under a new identifier.
    pub fn create_bank(&mut self, id: u128, bank_name: String, fee: i32) -> (r: Result<
        u128,
        LedgerError,
    >)
        requires
            old(self).wf(),
        ensures
            final(self).wf(),
            old(self).money_balanced() ==> final(self).money_balanced(),
            has_key(old(self).banks@, id) ==> r == Err::<u128, LedgerError>(LedgerError::DuplicateId)
                && *final(self) == *old(self),
            !has_key(old(self).banks@, id) ==> r == Ok::<u128, LedgerError>(id)
                && final(self).banks@ == old(self).banks@.push(fresh_bank(id, bank_name, fee))
                && final(self).branches == old(self).branches && final(self).same_leaves(old(self)),
    {
        if find_key(&self.banks, id).is_some() {
            return Err(LedgerError::DuplicateId);
        }
        let bank = Bank {
            id,
            bank_name,
            fee,
            total_money: 0,
            total_debt_to_collect: 0,
            total_loans_given: 0,
            total_cards: 0,
            total_accounts: 0,
            total_transactions: 0,
            total_customers: 0,
        };
        let ghost pre = *self;
        proof {
            lemma_has_key_push(pre.banks@, bank);
            lemma_keys_distinct_push(pre.banks@, bank);
            lemma_counts_unowned(pre.customers@, id);
            lemma_counts_unowned(pre.accounts@, id);
            lemma_counts_unowned(pre.cards@, id);
            lemma_counts_unowned(pre.transactions@, id);
            lemma_money_unowned(pre.branches@, id);
        }
        self.banks.push(bank);
        proof {
            assert(self.banks@[pre.banks@.len() as int] == bank);
            assert forall|j: int| 0 <= j < pre.banks@.len() implies self.banks@[j] == pre.banks@[j] by {}
        }
        Ok(id)
    }
}

/// The bank `b` with its amount `f` set to `v`.
pub open spec fn bank_with_total(b: Bank, f: BranchTotal, v: i64) -> Bank {
    match f {
        BranchTotal::Money => Bank { total_money: v, ..b },
        BranchTotal::Debt => Bank { total_debt_to_collect: v, ..b },
        BranchTotal::Loans => Bank { total_loans_given: v, ..b },
    }
}

/// The bank `b` holding `money`.
pub open spec fn with_money(b: Bank, money: i64) -> Bank {
    Bank { total_money: money, ..b }
}

/// The branch that `create_branch` stores.
pub open spec fn new_branch_ok(b: Branch, branch_id: u128, bank: Bank, pre_deposit_amount: i32) -> bool {
    &&& b.id == branch_id
    &&& b.branch_name@ == branch_name_of(bank.bank_name@, branch_id)
    &&& b.bank_id == bank.id
    &&& b.pre_deposit_amount == pre_deposit_amount
    &&& b.total_money == pre_deposit_amount as i64
    &&& b.debt_to_collect == 0
    &&& b.loans_given == 0
    &&& b.total_cards == 0
    &&& b.total_accounts == 0
    &&& b.total_transactions == 0
    &&& b.total_customers == 0
}

pub(crate) fn copy_bank(b: &Bank) -> (r: Bank)
    ensures
        r == *b,
{
    Bank {
        id: b.id,
        bank_name: b.bank_name.clone(),
        fee: b.fee,
        total_money: b.total_money,
        total_debt_to_collect: b.total_debt_to_collect,
        total_loans_given: b.total_loans_given,
        total_cards: b.total_cards,
        total_accounts: b.total_accounts,
        total_transactions: b.total_transactions,
        total_customers: b.total_customers,
    }
}

pub(crate) fn copy_branch(b: &Branch) -> (r: Branch)
    ensures
        r == *b,
{
    Branch {
        id: b.id,
        branch_name: b.branch_name.clone(),
        bank_id: b.bank_id,
        pre_deposit_amount: b.pre_deposit_amount,
        total_money: b.total_money,
        debt_to_collect: b.debt_to_collect,
        loans_given: b.loans_given,
        total_cards: b.total_cards,
        total_accounts: b.total_accounts,
        total_transactions: b.total_transactions,
        total_customers: b.total_customers,
    }
}

impl Ledger {
    /// Creates a branch of bank `bank_id` funded with `pre_deposit_amount`,
    /// which must be at least `MIN_PRE_DEPOSIT`. The branch starts with that
    /// money and the bank's money grows by exactly as much.
    pub fn create_branch(&mut self, bank_id: u128, branch_id: u128, pre_deposit_amount: i32) -> (r:
        Result<Branch, LedgerError>)
        requires
            old(self).wf(),
        ensures
            final(self).wf(),
            old(self).money_balanced() ==> final(self).money_balanced(),
            r is Err ==> *final(self) == *old(self),
            pre_deposit_amount < MIN_PRE_DEPOSIT <==> r matches Err(LedgerError::InvalidInput(_)),
            pre_deposit_amount < MIN_PRE_DEPOSIT ==> (r matches Err(LedgerError::InvalidInput(m))
                && m@ == "Pre-deposit amount must be greater than or equal to 300000"@),
            pre_deposit_amount >= MIN_PRE_DEPOSIT && !has_key(old(self).banks@, bank_id) ==> r
                == Err::<Branch, LedgerError>(LedgerError::BankNotFound),
            pre_deposit_amount >= MIN_PRE_DEPOSIT && has_key(old(self).banks@, bank_id) && has_key(
                old(self).branches@,
                branch_id,
            ) ==> r == Err::<Branch, LedgerError>(LedgerError::DuplicateId),
            ({
                let bi = key_index(old(self).banks@, bank_id);
                let bank = old(self).banks@[bi];
                pre_deposit_amount >= MIN_PRE_DEPOSIT && has_key(old(self).banks@, bank_id)
                    && !has_key(old(self).branches@, branch_id) ==> if bank.total_money
                    + pre_deposit_amount > i64::MAX {
                    r == Err::<Branch, LedgerError>(LedgerError::Overflow)
                } else {
                    &&& r is Ok
                    &&& new_branch_ok(r->Ok_0, branch_id, bank, pre_deposit_amount)
                    &&& final(self).branches@ == old(self).branches@.push(r->Ok_0)
                    &&& final(self).banks@ == old(self).banks@.update(
                        bi,
                        with_money(bank, (bank.total_money + pre_deposit_amount) as i64),
                    )
                    &&& final(self).same_leaves(old(self))
                }
            }),
    {
        if pre_deposit_amount < MIN_PRE_DEPOSIT {
            return Err(
                LedgerError::InvalidInput(
                    String::from_str("Pre-deposit amount must be greater than or equal to 300000"),
                ),
            );
        }
        let bi = match find_key(&self.banks, bank_id) {
            Some(i) => i,
            None => {
                return Err(LedgerError::BankNotFound);
            },
        };
        proof {
            lemma_key_index(self.banks@, bi as int);
        }
        if find_key(&self.branches, branch_id).is_some() {
            return Err(LedgerError::DuplicateId);
        }
        let old_money = self.banks[bi].total_money;
        if old_money > i64::MAX - pre_deposit_amount as i64 {
            return Err(LedgerError::Overflow);
        }
        let branch_name = branch_name_for(self.banks[bi].bank_name.as_str(), branch_id);
        let branch = Branch {
            id: branch_id,
            branch_name,
            bank_id,
            pre_deposit_amount,
            total_money: pre_deposit_amount as i64,
            debt_to_collect: 0,
            loans_given: 0,
            total_cards: 0,
            total_accounts: 0,
            total_transactions: 0,
            total_customers: 0,
        };
        let result = copy_branch(&branch);
        let ghost pre = *self;
        let ghost bank = pre.banks@[bi as int];
        let ghost new_bank = with_money(bank, (old_money + pre_deposit_amount as i64) as i64);
        proof {
            lemma_has_key_push(pre.branches@, branch);
            lemma_keys_distinct_push(pre.branches@, branch);
            lemma_has_key_update(pre.banks@, bi as int, new_bank);
            lemma_keys_distinct_update(pre.banks@, bi as int, new_bank);
            lemma_counts_unowned(pre.customers@, branch_id);
            lemma_counts_unowned(pre.accounts@, branch_id);
            lemma_counts_unowned(pre.cards@, branch_id);
            lemma_counts_unowned(pre.transactions@, branch_id);
            assert forall|j: int| 0 <= j < pre.banks@.len() implies branch_money(
                pre.branches@.push(branch),
                #[trigger] pre.banks@[j].id,
            ) == branch_money(pre.branches@, pre.banks@[j].id) + if pre.banks@[j].id == bank_id {
                pre_deposit_amount as int
            } else {
                0
            } by {
                lemma_money_push(pre.branches@, branch, pre.banks@[j].id);
            }
        }
        self.branches.push(branch);
        self.banks[bi].total_money = old_money + pre_deposit_amount as i64;
        proof {
            assert(self.banks@ =~= pre.banks@.update(bi as int, new_bank));
            assert(self.branches@[pre.branches@.len() as int] == branch);
            assert forall|j: int| 0 <= j < pre.branches@.len() implies self.branches@[j]
                == pre.branches@[j] by {}
            if pre.money_balanced() {
                assert forall|j: int| 0 <= j < self.banks@.len() implies (
                #[trigger] self.banks@[j]).total_money as int == branch_money(
                    self.branches@,
                    self.banks@[j].id,
                ) by {
                    assert(pre.banks@[j].id == self.banks@[j].id);
                    if j != bi as int {
                        assert(pre.banks@[j].row_id() != pre.banks@[bi as int].row_id());
                    }
                }
            }
        }
        Ok(result)
    }
}

/// `b` with its four counters set to `cu`, `ac`, `ca` and `tr`.
pub open spec fn branch_with_counts(b: Branch, cu: nat, ac: nat, ca: nat, tr: nat) -> Branch {
    Branch {
        total_customers: cu as u64,
        total_accounts: ac as u64,
        total_cards: ca as u64,
        total_transactions: tr as u64,
        ..b
    }
}

/// `b` with its four counters set to `cu`, `ac`, `ca` and `tr`.
pub open spec fn bank_with_counts(b: Bank, cu: nat, ac: nat, ca: nat, tr: nat) -> Bank {
    Bank {
        total_customers: cu as u64,
        total_accounts: ac as u64,
        total_cards: ca as u64,
        total_transactions: tr as u64,
        ..b
    }
}

impl Ledger {
    /// Recounts the rows of the branch at `i` from the tables.
    pub(crate) fn refresh_branch(&mut self, i: usize)
        requires
            i < old(self).branches@.len(),
        ensures
            ({
                let b = old(self).branches@[i as int];
                final(self).branches@ == old(self).branches@.update(
                    i as int,
                    branch_with_counts(
                        b,
                        count_in_branch(old(self).customers@, b.id),
                        count_in_branch(old(self).accounts@, b.id),
                        count_in_branch(old(self).cards@, b.id),
                        count_in_branch(old(self).transactions@, b.id),
                    ),
                )
            }),
            final(self).banks == old(self).banks,
            final(self).same_leaves(old(self)),
    {
        let id = self.branches[i].id;
        let cu = count_branch_rows(&self.customers, id);
        let ac = count_branch_rows(&self.accounts, id);
        let ca = count_branch_rows(&self.cards, id);
        let tr = count_branch_rows(&self.transactions, id);
        let ghost pre = *self;
        self.branches[i].total_customers = cu;
        self.branches[i].total_accounts = ac;
        self.branches[i].total_cards = ca;
        self.branches[i].total_transactions = tr;
        proof {
            let b = pre.branches@[i as int];
            assert(self.branches@ =~= pre.branches@.update(
                i as int,
                branch_with_counts(
                    b,
                    count_in_branch(pre.customers@, b.id),
                    count_in_branch(pre.accounts@, b.id),
                    count_in_branch(pre.cards@, b.id),
                    count_in_branch(pre.transactions@, b.id),
                ),
            ));
        }
    }

    /// Recounts the rows of the bank at `j` from the tables.
    pub(crate) fn refresh_bank(&mut self, j: usize)
        requires
            j < old(self).banks@.len(),
        ensures
            ({
                let b = old(self).banks@[j as int];
                final(self).banks@ == old(self).banks@.update(
                    j as int,
                    bank_with_counts(
                        b,
                        count_in_bank(old(self).customers@, b.id),
                        count_in_bank(old(self).accounts@, b.id),
                        count_in_bank(old(self).cards@, b.id),
                        count_in_bank(old(self).transactions@, b.id),
                    ),
                )
            }),
            final(self).branches == old(self).branches,
            final(self).same_leaves(old(self)),
    {
        let id = self.banks[j].id;
        let cu = count_bank_rows(&self.customers, id);
        let ac = count_bank_rows(&self.accounts, id);
        let ca = count_bank_rows(&self.cards, id);
        let tr = count_bank_rows(&self.transactions, id);
        let ghost pre = *self;
        self.banks[j].total_customers = cu;
        self.banks[j].total_accounts = ac;
        self.banks[j].total_cards = ca;
        self.banks[j].total_transactions = tr;
        proof {
            let b = pre.banks@[j as int];
            assert(self.banks@ =~= pre.banks@.update(
                j as int,
                bank_with_counts(
                    b,
                    count_in_bank(pre.customers@, b.id),
                    count_in_bank(pre.accounts@, b.id),
                    count_in_bank(pre.cards@, b.id),
                    count_in_bank(pre.transactions@, b.id),
                ),
            ));
        }
    }
}

/// Outside the branch `br` and the bank `bk`, `post` counts the same rows as
/// `pre`.
pub open spec fn counts_kept_except(pre: Ledger, post: Ledger, br: u128, bk: u128) -> bool {
    &&& forall|b: u128|
        b != br ==> #[trigger] count_in_branch(post.customers@, b) == count_in_branch(
            pre.customers@,
            b,
        ) && count_in_branch(post.accounts@, b) == count_in_branch(pre.accounts@, b)
            && count_in_branch(post.cards@, b) == count_in_branch(pre.cards@, b) && count_in_branch(
            post.transactions@,
            b,
        ) == count_in_branch(pre.transactions@, b)
    &&& forall|b: u128|
        b != bk ==> #[trigger] count_in_bank(post.customers@, b) == count_in_bank(pre.customers@, b)
            && count_in_bank(post.accounts@, b) == count_in_bank(pre.accounts@, b) && count_in_bank(
            post.cards@,
            b,
        ) == count_in_bank(pre.cards@, b) && count_in_bank(post.transactions@, b)
            == count_in_bank(pre.transactions@, b)
}

/// `post` is `mid` with the branch at `bi` and the bank at `ki` recounted.
pub open spec fn recounted(mid: Ledger, post: Ledger, bi: int, ki: int) -> bool {
    let b = mid.branches@[bi];
    let k = mid.banks@[ki];
    &&& post.branches@ == mid.branches@.update(
        bi,
        branch_with_counts(
            b,
            count_in_branch(mid.customers@, b.id),
            count_in_branch(mid.accounts@, b.id),
            count_in_branch(mid.cards@, b.id),
            count_in_branch(mid.transactions@, b.id),
        ),
    )
    &&& post.banks@ == mid.banks@.update(
        ki,
        bank_with_counts(
            k,
            count_in_bank(mid.customers@, k.id),
            count_in_bank(mid.accounts@, k.id),
            count_in_bank(mid.cards@, k.id),
            count_in_bank(mid.transactions@, k.id),
        ),
    )
    &&& post.same_leaves(&mid)
}

/// Recounting the one branch and the one bank whose counts a change touched
/// restores the rollups, and moves no money.
pub proof fn lemma_recount_restores(pre: Ledger, mid: Ledger, post: Ledger, bi: int, ki: int)
    requires
        pre.rollups_ok(),
        keys_distinct(pre.branches@),
        keys_distinct(pre.banks@),
        mid.branches == pre.branches,
        mid.banks == pre.banks,
        0 <= bi < pre.branches@.len(),
        0 <= ki < pre.banks@.len(),
        counts_kept_except(pre, mid, pre.branches@[bi].id, pre.banks@[ki].id),
        recounted(mid, post, bi, ki),
        mid.customers@.len() <= u64::MAX,
        mid.accounts@.len() <= u64::MAX,
        mid.cards@.len() <= u64::MAX,
        mid.transactions@.len() <= u64::MAX,
    ensures
        post.rollups_ok(),
        pre.money_balanced() ==> post.money_balanced(),
        forall|j: int| 0 <= j < post.banks@.len() ==> (#[trigger] post.banks@[j]).id == pre.banks@[j].id,
        forall|j: int| 0 <= j < post.branches@.len() ==> (#[trigger] post.branches@[j]).id
            == pre.branches@[j].id && post.branches@[j].bank_id == pre.branches@[j].bank_id,
        post.banks@.len() == pre.banks@.len(),
        post.branches@.len() == pre.branches@.len(),
{
    let b = mid.branches@[bi];
    let nb = post.branches@[bi];
    assert forall|i: int| 0 <= i < post.branches@.len() implies post.branch_rollups_ok(
        #[trigger] post.branches@[i],
    ) by {
        let id = pre.branches@[i].id;
        lemma_count_bounded(mid.customers@, id);
        lemma_count_bounded(mid.accounts@, id);
        lemma_count_bounded(mid.cards@, id);
        lemma_count_bounded(mid.transactions@, id);
        if i != bi {
            assert(pre.branches@[i].row_id() != pre.branches@[bi].row_id());
            assert(pre.branch_rollups_ok(pre.branches@[i]));
            assert(count_in_branch(mid.customers@, id) == count_in_branch(pre.customers@, id));
        }
    }
    assert forall|j: int| 0 <= j < post.banks@.len() implies post.bank_rollups_ok(
        #[trigger] post.banks@[j],
    ) by {
        let id = pre.banks@[j].id;
        lemma_count_bounded(mid.customers@, id);
        lemma_count_bounded(mid.accounts@, id);
        lemma_count_bounded(mid.cards@, id);
        lemma_count_bounded(mid.transactions@, id);
        if j != ki {
            assert(pre.banks@[j].row_id() != pre.banks@[ki].row_id());
            assert(pre.bank_rollups_ok(pre.banks@[j]));
            assert(count_in_bank(mid.customers@, id) == count_in_bank(pre.customers@, id));
        }
    }
    if pre.money_balanced() {
        assert forall|j: int| 0 <= j < post.banks@.len() implies (
        #[trigger] post.banks@[j]).total_money as int == branch_money(
            post.branches@,
            post.banks@[j].id,
        ) by {
            lemma_money_update(pre.branches@, bi, nb, post.banks@[j].id);
        }
    }
}

impl Ledger {
    /// Recounts the branch at `bi` and the bank at `ki`.
    pub(crate) fn recount(&mut self, bi: usize, ki: usize)
        requires
            bi < old(self).branches@.len(),
            ki < old(self).banks@.len(),
        ensures
            recounted(*old(self), *final(self), bi as int, ki as int),
            forall|k: u128| #[trigger] has_key(final(self).branches@, k) == has_key(old(self).branches@, k),
            forall|k: u128| #[trigger] has_key(final(self).banks@, k) == has_key(old(self).banks@, k),
            keys_distinct(old(self).branches@) ==> keys_distinct(final(self).branches@),
            keys_distinct(old(self).banks@) ==> keys_distinct(final(self).banks@),
            final(self).customers@.len() <= u64::MAX,
            final(self).accounts@.len() <= u64::MAX,
            final(self).cards@.len() <= u64::MAX,
            final(self).transactions@.len() <= u64::MAX,
    {
        let ghost pre = *self;
        self.refresh_branch(bi);
        self.refresh_bank(ki);
        let n_customers = self.customers.len();
        let n_accounts = self.accounts.len();
        let n_cards = self.cards.len();
        let n_transactions = self.transactions.len();
        assert(n_customers as int <= u64::MAX && n_accounts as int <= u64::MAX && n_cards as int
            <= u64::MAX && n_transactions as int <= u64::MAX);
        proof {
            let b = pre.branches@[bi as int];
            let k = pre.banks@[ki as int];
            let nb = branch_with_counts(
                b,
                count_in_branch(pre.customers@, b.id),
                count_in_branch(pre.accounts@, b.id),
                count_in_branch(pre.cards@, b.id),
                count_in_branch(pre.transactions@, b.id),
            );
            let nk = bank_with_counts(
                k,
                count_in_bank(pre.customers@, k.id),
                count_in_bank(pre.accounts@, k.id),
                count_in_bank(pre.cards@, k.id),
                count_in_bank(pre.transactions@, k.id),
            );
            lemma_has_key_update(pre.branches@, bi as int, nb);
            lemma_has_key_update(pre.banks@, ki as int, nk);
            if keys_distinct(pre.branches@) {
                lemma_keys_distinct_update(pre.branches@, bi as int, nb);
            }
            if keys_distinct(pre.banks@) {
                lemma_keys_distinct_update(pre.banks@, ki as int, nk);
            }
        }
    }
}

/// In a consistent ledger each counter of a bank is the sum of that counter
/// over the bank's branches.
pub proof fn lemma_bank_counters_sum_branches(l: Ledger, j: int)
    requires
        l.wf(),
        0 <= j < l.banks@.len(),
    ensures
        ({
            let k = l.banks@[j];
            &&& k.total_customers as int == branch_counter_sum(l.branches@, k.id, Counter::Customers)
            &&& k.total_accounts as int == branch_counter_sum(l.branches@, k.id, Counter::Accounts)
            &&& k.total_cards as int == branch_counter_sum(l.branches@, k.id, Counter::Cards)
            &&& k.total_transactions as int == branch_counter_sum(
                l.branches@,
                k.id,
                Counter::Transactions,
            )
        }),
{
    let k = l.banks@[j].id;
    let brs = l.branches@;
    assert(l.bank_rollups_ok(l.banks@[j]));
    assert forall|i: int| 0 <= i < brs.len() implies l.branch_rollups_ok(#[trigger] brs[i]) by {}
    lemma_counter_sum_is_count_sum(brs, l.customers@, k, Counter::Customers);
    lemma_counter_sum_is_count_sum(brs, l.accounts@, k, Counter::Accounts);
    lemma_counter_sum_is_count_sum(brs, l.cards@, k, Counter::Cards);
    lemma_counter_sum_is_count_sum(brs, l.transactions@, k, Counter::Transactions);
    lemma_bank_count_by_branches(brs, l.customers@, k);
    lemma_bank_count_by_branches(brs, l.accounts@, k);
    lemma_bank_count_by_branches(brs, l.cards@, k);
    lemma_bank_count_by_branches(brs, l.transactions@, k);
}

} // verus!
