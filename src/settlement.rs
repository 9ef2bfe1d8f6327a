use vstd::prelude::*;
use vstd::string::StringExecFns;

use crate::aggregates::{
    branch_money, count_in_bank, count_in_branch, find_key, has_key, key_index, keys_distinct,
    lemma_count_bounded, lemma_counts_same_owners, lemma_has_key_update, lemma_key_index, lemma_keys_distinct_push,
    lemma_keys_distinct_update, lemma_money_same, lemma_money_update, lemma_sum_same, lemma_same_keys, same_owners, sum_branch_field, BranchTotal, branch_sum,
};
use crate::entities::{Account, Bank, Branch, Card, Hold, Keyed, Owned, Transfer};
use crate::lifecycle::{account_number_taken, card_number_taken};
use crate::types::Date;
use crate::ledger::{bank_with_total, bank_with_counts, branch_with_counts, with_money, Ledger, LedgerError};
use crate::types::CardStatus;

verus! {

/// The money, debt and loan sums of bank `b` fit an `i64`.
pub open spec fn bank_sums_fit(branches: Seq<Branch>, b: u128) -> bool {
    &&& i64::MIN <= branch_money(branches, b) <= i64::MAX
    &&& i64::MIN <= branch_sum(branches, b, BranchTotal::Debt) <= i64::MAX
    &&& i64::MIN <= branch_sum(branches, b, BranchTotal::Loans) <= i64::MAX
}

/// `b` with its money, debt to collect and loans given set.
pub open spec fn bank_with_sums(b: Bank, money: i64, debt: i64, loans: i64) -> Bank {
    Bank { total_money: money, total_debt_to_collect: debt, total_loans_given: loans, ..b }
}

/// `b` holding `money`.
pub open spec fn branch_with_money(b: Branch, money: i64) -> Branch {
    Branch { total_money: money, ..b }
}

/// `c` with the balance `balance`.
pub open spec fn card_with_balance(c: Card, balance: i64) -> Card {
    Card { balance, ..c }
}

/// `a` with the balance `balance`.
pub open spec fn account_with_balance(a: Account, balance: i64) -> Account {
    Account { balance, ..a }
}

/// `post` has the same accounts and cards as `pre`, place by place, but for
/// their balances, status and other fields that no invariant reads.
pub open spec fn same_identities(pre: Ledger, post: Ledger) -> bool {
    &&& same_owners(pre.accounts@, post.accounts@)
    &&& same_owners(pre.cards@, post.cards@)
    &&& forall|i: int|
        0 <= i < pre.accounts@.len() ==> (#[trigger] post.accounts@[i]).id == pre.accounts@[i].id
            && post.accounts@[i].account_number@ == pre.accounts@[i].account_number@
    &&& forall|i: int|
        0 <= i < pre.cards@.len() ==> (#[trigger] post.cards@[i]).id == pre.cards@[i].id
            && post.cards@[i].card_number@ == pre.cards@[i].card_number@
}

/// Changing balances or statuses of accounts and cards, and adding holds or
/// transfers, keeps the invariants as long as no balance goes negative.
pub proof fn lemma_balances_touched(pre: Ledger, post: Ledger)
    requires
        pre.wf(),
        post.banks == pre.banks,
        post.branches == pre.branches,
        post.customers == pre.customers,
        post.transactions == pre.transactions,
        post.refunds == pre.refunds,
        same_identities(pre, post),
        forall|i: int| 0 <= i < post.accounts@.len() ==> (#[trigger] post.accounts@[i]).balance >= 0,
        forall|i: int| 0 <= i < post.cards@.len() ==> (#[trigger] post.cards@[i]).balance >= 0,
        keys_distinct(post.transfers@),
        keys_distinct(post.holds@),
    ensures
        post.wf(),
        pre.money_balanced() ==> post.money_balanced(),
{
    assert forall|i: int, j: int|
        0 <= i < post.accounts@.len() && 0 <= j < post.accounts@.len() && i != j implies #[trigger] post.accounts@[i].row_id()
        != #[trigger] post.accounts@[j].row_id() by {
        assert(pre.accounts@[i].row_id() != pre.accounts@[j].row_id());
    }
    assert forall|i: int, j: int|
        0 <= i < post.cards@.len() && 0 <= j < post.cards@.len() && i != j implies #[trigger] post.cards@[i].row_id()
        != #[trigger] post.cards@[j].row_id() by {
        assert(pre.cards@[i].row_id() != pre.cards@[j].row_id());
    }
    assert forall|i: int, j: int|
        0 <= i < post.accounts@.len() && 0 <= j < post.accounts@.len() && i != j implies (#[trigger] post.accounts@[i]).account_number@
        != (#[trigger] post.accounts@[j]).account_number@ by {
        assert(pre.accounts@[i].account_number@ != pre.accounts@[j].account_number@);
    }
    assert forall|i: int, j: int|
        0 <= i < post.cards@.len() && 0 <= j < post.cards@.len() && i != j implies (#[trigger] post.cards@[i]).card_number@
        != (#[trigger] post.cards@[j]).card_number@ by {
        assert(pre.cards@[i].card_number@ != pre.cards@[j].card_number@);
    }
    assert forall|i: int| 0 <= i < post.branches@.len() implies post.branch_rollups_ok(
        #[trigger] post.branches@[i],
    ) by {
        assert(pre.branch_rollups_ok(pre.branches@[i]));
        lemma_counts_same_owners(pre.cards@, post.cards@, pre.branches@[i].id);
        lemma_counts_same_owners(pre.accounts@, post.accounts@, pre.branches@[i].id);
    }
    assert forall|i: int| 0 <= i < post.banks@.len() implies post.bank_rollups_ok(
        #[trigger] post.banks@[i],
    ) by {
        assert(pre.bank_rollups_ok(pre.banks@[i]));
        lemma_counts_same_owners(pre.cards@, post.cards@, pre.banks@[i].id);
        lemma_counts_same_owners(pre.accounts@, post.accounts@, pre.banks@[i].id);
    }
    assert forall|i: int| 0 <= i < post.accounts@.len() implies has_key(
        post.branches@,
        (#[trigger] post.accounts@[i]).row_branch(),
    ) && has_key(post.banks@, post.accounts@[i].row_bank()) by {
        assert(has_key(pre.branches@, pre.accounts@[i].row_branch()));
        assert(has_key(pre.banks@, pre.accounts@[i].row_bank()));
    }
    assert forall|i: int| 0 <= i < post.cards@.len() implies has_key(
        post.branches@,
        (#[trigger] post.cards@[i]).row_branch(),
    ) && has_key(post.banks@, post.cards@[i].row_bank()) by {
        assert(has_key(pre.branches@, pre.cards@[i].row_branch()));
        assert(has_key(pre.banks@, pre.cards@[i].row_bank()));
    }
}

/// The place of the card numbered `n`; meaningful when the number is taken.
pub open spec fn card_number_index(cards: Seq<Card>, n: Seq<char>) -> int {
    choose|i: int| 0 <= i < cards.len() && (#[trigger] cards[i]).card_number@ == n
}

/// The place of the account numbered `n`; meaningful when the number is taken.
pub open spec fn account_number_index(accounts: Seq<Account>, n: Seq<char>) -> int {
    choose|i: int| 0 <= i < accounts.len() && (#[trigger] accounts[i]).account_number@ == n
}

/// The error that `transfer` owes for a request with a non-negative amount;
/// `None` when the transfer can be made.
pub open spec fn transfer_error(
    ledger: Ledger,
    sender_card_number: Seq<char>,
    beneficiary_account_number: Seq<char>,
    amount: i64,
    transfer_id: u128,
) -> Option<LedgerError> {
    let c = ledger.cards@[card_number_index(ledger.cards@, sender_card_number)];
    let a = ledger.accounts@[account_number_index(ledger.accounts@, beneficiary_account_number)];
    if amount < 0 {
        None
    } else if !card_number_taken(ledger.cards@, sender_card_number) {
        Some(LedgerError::CardNotFound)
    } else if c.card_status != CardStatus::Active {
        Some(LedgerError::CardNotActive)
    } else if c.balance < amount {
        Some(LedgerError::InsufficientFunds)
    } else if !account_number_taken(ledger.accounts@, beneficiary_account_number) {
        Some(LedgerError::AccountNotFound)
    } else if a.balance + amount > i64::MAX {
        Some(LedgerError::Overflow)
    } else if has_key(ledger.transfers@, transfer_id) {
        Some(LedgerError::DuplicateId)
    } else {
        None
    }
}

pub(crate) fn copy_transfer(t: &Transfer) -> (r: Transfer)
    ensures
        r == *t,
{
    Transfer {
        branch_id: t.branch_id,
        bank_id: t.bank_id,
        id: t.id,
        sender_card_number: t.sender_card_number.clone(),
        beneficiary_account_number: t.beneficiary_account_number.clone(),
        amount: t.amount,
        transfer_date: t.transfer_date,
    }
}

impl Ledger {
    pub(crate) fn find_card_number(&self, n: &String) -> (r: Option<usize>)
        requires
            self.numbers_ok(),
        ensures
            match r {
                Some(i) => i < self.cards@.len() && self.cards@[i as int].card_number@ == n@
                    && card_number_taken(self.cards@, n@) && card_number_index(self.cards@, n@)
                    == i,
                None => !card_number_taken(self.cards@, n@),
            },
    {
        let mut i: usize = 0;
        while i < self.cards.len()
            invariant
                self.numbers_ok(),
                i <= self.cards@.len(),
                forall|j: int| 0 <= j < i ==> (#[trigger] self.cards@[j]).card_number@ != n@,
            decreases self.cards@.len() - i,
        {
            if self.cards[i].card_number == *n {
                proof {
                    assert(self.cards@[i as int].card_number@ == n@);
                    let k = card_number_index(self.cards@, n@);
                    if k != i {
                        assert(self.cards@[k].card_number@ != self.cards@[i as int].card_number@);
                    }
                }
                return Some(i);
            }
            i = i + 1;
        }
        None
    }

    fn find_account_number(&self, n: &String) -> (r: Option<usize>)
        requires
            self.numbers_ok(),
        ensures
            match r {
                Some(i) => i < self.accounts@.len() && self.accounts@[i as int].account_number@
                    == n@ && account_number_taken(self.accounts@, n@) && account_number_index(
                    self.accounts@,
                    n@,
                ) == i,
                None => !account_number_taken(self.accounts@, n@),
            },
    {
        let mut i: usize = 0;
        while i < self.accounts.len()
            invariant
                self.numbers_ok(),
                i <= self.accounts@.len(),
                forall|j: int| 0 <= j < i ==> (#[trigger] self.accounts@[j]).account_number@ != n@,
            decreases self.accounts@.len() - i,
        {
            if self.accounts[i].account_number == *n {
                proof {
                    assert(self.accounts@[i as int].account_number@ == n@);
                    let k = account_number_index(self.accounts@, n@);
                    if k != i {
                        assert(self.accounts@[k].account_number@
                            != self.accounts@[i as int].account_number@);
                    }
                }
                return Some(i);
            }
            i = i + 1;
        }
        None
    }

    /// Moves `amount` from the active card numbered `sender_card_number` to
    /// the account numbered `beneficiary_account_number`, and records the
    /// transfer. The debit, the credit and the record are written together or
    /// not at all.
    pub fn transfer(
        &mut self,
        sender_card_number: String,
        beneficiary_account_number: String,
        amount: i64,
        transfer_id: u128,
        today: Date,
    ) -> (r: Result<Transfer, LedgerError>)
        requires
            old(self).wf(),
        ensures
            final(self).wf(),
            old(self).money_balanced() ==> final(self).money_balanced(),
            r is Err ==> *final(self) == *old(self),
            amount < 0 ==> (r matches Err(LedgerError::InvalidInput(m)) && m@
                == "Transfer amount cannot be negative."@),
            ({
                let err = transfer_error(
                    *old(self),
                    sender_card_number@,
                    beneficiary_account_number@,
                    amount,
                    transfer_id,
                );
                let ci = card_number_index(old(self).cards@, sender_card_number@);
                let ai = account_number_index(old(self).accounts@, beneficiary_account_number@);
                let c = old(self).cards@[ci];
                let a = old(self).accounts@[ai];
                &&& amount >= 0 && err is Some ==> r == Err::<Transfer, LedgerError>(err->0)
                &&& amount >= 0 && err is None ==> {
                    &&& r == Ok::<Transfer, LedgerError>(
                        Transfer {
                            branch_id: c.branch_id,
                            bank_id: c.bank_id,
                            id: transfer_id,
                            sender_card_number,
                            beneficiary_account_number,
                            amount,
                            transfer_date: today,
                        },
                    )
                    &&& final(self).cards@ == old(self).cards@.update(
                        ci,
                        card_with_balance(c, (c.balance - amount) as i64),
                    )
                    &&& final(self).accounts@ == old(self).accounts@.update(
                        ai,
                        account_with_balance(a, (a.balance + amount) as i64),
                    )
                    &&& final(self).transfers@ == old(self).transfers@.push(r->Ok_0)
                    &&& final(self).banks == old(self).banks
                    &&& final(self).branches == old(self).branches
                    &&& final(self).customers == old(self).customers
                    &&& final(self).transactions == old(self).transactions
                    &&& final(self).refunds == old(self).refunds
                    &&& final(self).holds == old(self).holds
                }
            }),
    {
        if amount < 0 {
            return Err(
                LedgerError::InvalidInput(String::from_str("Transfer amount cannot be negative.")),
            );
        }
        let ci = match self.find_card_number(&sender_card_number) {
            Some(i) => i,
            None => {
                return Err(LedgerError::CardNotFound);
            },
        };
        if self.cards[ci].card_status != CardStatus::Active {
            return Err(LedgerError::CardNotActive);
        }
        let card_balance = self.cards[ci].balance;
        if card_balance < amount {
            return Err(LedgerError::InsufficientFunds);
        }
        let ai = match self.find_account_number(&beneficiary_account_number) {
            Some(i) => i,
            None => {
                return Err(LedgerError::AccountNotFound);
            },
        };
        let account_balance = self.accounts[ai].balance;
        if account_balance > i64::MAX - amount {
            return Err(LedgerError::Overflow);
        }
        if find_key(&self.transfers, transfer_id).is_some() {
            return Err(LedgerError::DuplicateId);
        }
        let record = Transfer {
            branch_id: self.cards[ci].branch_id,
            bank_id: self.cards[ci].bank_id,
            id: transfer_id,
            sender_card_number,
            beneficiary_account_number,
            amount,
            transfer_date: today,
        };
        let result = copy_transfer(&record);
        let ghost pre = *self;
        proof {
            lemma_keys_distinct_push(pre.transfers@, record);
        }
        self.cards[ci].balance = card_balance - amount;
        self.accounts[ai].balance = account_balance + amount;
        self.transfers.push(record);
        proof {
            let c = pre.cards@[ci as int];
            let a = pre.accounts@[ai as int];
            assert(self.cards@ =~= pre.cards@.update(
                ci as int,
                card_with_balance(c, (c.balance - amount) as i64),
            ));
            assert(self.accounts@ =~= pre.accounts@.update(
                ai as int,
                account_with_balance(a, (a.balance + amount) as i64),
            ));
            assert(same_identities(pre, *self));
            lemma_balances_touched(pre, *self);
        }
        Ok(result)
    }
}

/// The error that `place_hold` owes for a request with a non-negative
/// amount, checked in order: a hold already under `hold_id`, an unknown card,
/// a card of another account, an inactive card, a balance below the amount;
/// `None` when the hold can be placed.
pub open spec fn hold_error(
    ledger: Ledger,
    account_number: Seq<char>,
    card_id: u128,
    amount: i64,
    hold_id: u128,
) -> Option<LedgerError> {
    let c = ledger.cards@[key_index(ledger.cards@, card_id)];
    if amount < 0 {
        None
    } else if has_key(ledger.holds@, hold_id) {
        Some(LedgerError::DuplicateHold)
    } else if !has_key(ledger.cards@, card_id) {
        Some(LedgerError::CardNotFound)
    } else if c.account_number@ != account_number {
        Some(LedgerError::CardAccountMismatch)
    } else if c.card_status != CardStatus::Active {
        Some(LedgerError::CardNotActive)
    } else if c.balance < amount {
        Some(LedgerError::InsufficientFunds)
    } else {
        None
    }
}

pub(crate) fn copy_hold(h: &Hold) -> (r: Hold)
    ensures
        r == *h,
{
    Hold {
        id: h.id,
        account_number: h.account_number.clone(),
        card_id: h.card_id,
        amount: h.amount,
        branch_id: h.branch_id,
        bank_id: h.bank_id,
    }
}

impl Ledger {
    /// Reserves `amount` on the active card `card_id` of the account numbered
    /// `account_number`: the card's available balance drops by the amount and
    /// a hold is recorded under `hold_id`. A hold already recorded under that
    /// identifier is not applied again.
    pub fn place_hold(&mut self, account_number: String, card_id: u128, amount: i64, hold_id: u128) -> (r:
        Result<Hold, LedgerError>)
        requires
            old(self).wf(),
        ensures
            final(self).wf(),
            old(self).money_balanced() ==> final(self).money_balanced(),
            r is Err ==> *final(self) == *old(self),
            amount < 0 ==> (r matches Err(LedgerError::InvalidInput(m)) && m@
                == "Hold amount cannot be negative."@),
            ({
                let err = hold_error(*old(self), account_number@, card_id, amount, hold_id);
                let ci = key_index(old(self).cards@, card_id);
                let c = old(self).cards@[ci];
                &&& amount >= 0 && err is Some ==> r == Err::<Hold, LedgerError>(err->0)
                &&& amount >= 0 && err is None ==> {
                    &&& r == Ok::<Hold, LedgerError>(
                        Hold {
                            id: hold_id,
                            account_number,
                            card_id,
                            amount,
                            branch_id: c.branch_id,
                            bank_id: c.bank_id,
                        },
                    )
                    &&& final(self).cards@ == old(self).cards@.update(
                        ci,
                        card_with_balance(c, (c.balance - amount) as i64),
                    )
                    &&& final(self).holds@ == old(self).holds@.push(r->Ok_0)
                    &&& final(self).banks == old(self).banks
                    &&& final(self).branches == old(self).branches
                    &&& final(self).accounts == old(self).accounts
                    &&& final(self).transactions == old(self).transactions
                    &&& final(self).transfers == old(self).transfers
                }
            }),
    {
        if amount < 0 {
            return Err(
                LedgerError::InvalidInput(String::from_str("Hold amount cannot be negative.")),
            );
        }
        if find_key(&self.holds, hold_id).is_some() {
            return Err(LedgerError::DuplicateHold);
        }
        let ci = match find_key(&self.cards, card_id) {
            Some(i) => i,
            None => {
                return Err(LedgerError::CardNotFound);
            },
        };
        proof {
            lemma_key_index(self.cards@, ci as int);
        }
        if self.cards[ci].account_number != account_number {
            return Err(LedgerError::CardAccountMismatch);
        }
        if self.cards[ci].card_status != CardStatus::Active {
            return Err(LedgerError::CardNotActive);
        }
        let balance = self.cards[ci].balance;
        if balance < amount {
            return Err(LedgerError::InsufficientFunds);
        }
        let hold = Hold {
            id: hold_id,
            account_number,
            card_id,
            amount,
            branch_id: self.cards[ci].branch_id,
            bank_id: self.cards[ci].bank_id,
        };
        let result = copy_hold(&hold);
        let ghost pre = *self;
        proof {
            lemma_keys_distinct_push(pre.holds@, hold);
        }
        self.cards[ci].balance = balance - amount;
        self.holds.push(hold);
        proof {
            let c = pre.cards@[ci as int];
            assert(self.cards@ =~= pre.cards@.update(
                ci as int,
                card_with_balance(c, (c.balance - amount) as i64),
            ));
            assert(same_identities(pre, *self));
            lemma_balances_touched(pre, *self);
        }
        Ok(result)
    }
}

impl Ledger {
    /// Books a deposit of `new_deposit` to branch `branch_id`: the branch's
    /// running money grows by the deposit, and so does its bank's. The
    /// pre-deposit the branch was created with stays as it was.
    pub fn update_total_money_on_deposit(&mut self, branch_id: u128, new_deposit: i32) -> (r:
        Result<(), LedgerError>)
        requires
            old(self).wf(),
        ensures
            final(self).wf(),
            old(self).money_balanced() ==> final(self).money_balanced(),
            r is Err ==> *final(self) == *old(self),
            !has_key(old(self).branches@, branch_id) ==> r == Err::<(), LedgerError>(
                LedgerError::BranchNotFound,
            ),
            ({
                let bi = key_index(old(self).branches@, branch_id);
                let b = old(self).branches@[bi];
                let ki = key_index(old(self).banks@, b.bank_id);
                let k = old(self).banks@[ki];
                let fits = i64::MIN <= b.total_money + new_deposit <= i64::MAX && i64::MIN
                    <= k.total_money + new_deposit <= i64::MAX;
                &&& has_key(old(self).branches@, branch_id) && !fits ==> r == Err::<(), LedgerError>(
                    LedgerError::Overflow,
                )
                &&& has_key(old(self).branches@, branch_id) && fits ==> {
                    &&& r is Ok
                    &&& final(self).branches@ == old(self).branches@.update(
                        bi,
                        branch_with_money(b, (b.total_money + new_deposit) as i64),
                    )
                    &&& final(self).branches@[bi].pre_deposit_amount == b.pre_deposit_amount
                    &&& final(self).banks@ == old(self).banks@.update(
                        ki,
                        with_money(k, (k.total_money + new_deposit) as i64),
                    )
                    &&& final(self).same_leaves(old(self))
                }
            }),
    {
        let bi = match find_key(&self.branches, branch_id) {
            Some(i) => i,
            None => {
                return Err(LedgerError::BranchNotFound);
            },
        };
        proof {
            lemma_key_index(self.branches@, bi as int);
        }
        let bank_id = self.branches[bi].bank_id;
        assert(has_key(self.banks@, self.branches@[bi as int].bank_id));
        let ki = match find_key(&self.banks, bank_id) {
            Some(i) => i,
            None => {
                return Err(LedgerError::BankNotFound);
            },
        };
        proof {
            lemma_key_index(self.banks@, ki as int);
        }
        let amount: i64 = new_deposit as i64;
        let branch_money_now = self.branches[bi].total_money;
        let bank_money_now = self.banks[ki].total_money;
        let new_branch_money = match branch_money_now.checked_add(amount) {
            Some(m) => m,
            None => {
                return Err(LedgerError::Overflow);
            },
        };
        let new_bank_money = match bank_money_now.checked_add(amount) {
            Some(m) => m,
            None => {
                return Err(LedgerError::Overflow);
            },
        };
        let ghost pre = *self;
        self.branches[bi].total_money = new_branch_money;
        self.banks[ki].total_money = new_bank_money;
        proof {
            let b = pre.branches@[bi as int];
            let k = pre.banks@[ki as int];
            let nb = branch_with_money(b, new_branch_money);
            let nk = with_money(k, new_bank_money);
            assert(self.branches@ =~= pre.branches@.update(bi as int, nb));
            assert(self.banks@ =~= pre.banks@.update(ki as int, nk));
            lemma_has_key_update(pre.branches@, bi as int, nb);
            lemma_has_key_update(pre.banks@, ki as int, nk);
            lemma_keys_distinct_update(pre.branches@, bi as int, nb);
            lemma_keys_distinct_update(pre.banks@, ki as int, nk);
            assert forall|i: int| 0 <= i < self.branches@.len() implies self.branch_rollups_ok(
                #[trigger] self.branches@[i],
            ) by {
                assert(pre.branch_rollups_ok(pre.branches@[i]));
            }
            assert forall|i: int| 0 <= i < self.banks@.len() implies self.bank_rollups_ok(
                #[trigger] self.banks@[i],
            ) by {
                assert(pre.bank_rollups_ok(pre.banks@[i]));
            }
            if pre.money_balanced() {
                assert forall|j: int| 0 <= j < self.banks@.len() implies (
                #[trigger] self.banks@[j]).total_money as int == branch_money(
                    self.branches@,
                    self.banks@[j].id,
                ) by {
                    lemma_money_update(pre.branches@, bi as int, nb, pre.banks@[j].id);
                    if j != ki as int {
                        assert(pre.banks@[j].row_id() != pre.banks@[ki as int].row_id());
                    }
                }
            }
        }
        Ok(())
    }
}

impl Ledger {
    /// Sets the amount `f` of bank `bank_id` to the sum over its branches.
    fn rederive_bank_total(&mut self, bank_id: u128, f: BranchTotal) -> (r: Result<(), LedgerError>)
        requires
            old(self).wf(),
        ensures
            final(self).wf(),
            r is Err ==> *final(self) == *old(self),
            !has_key(old(self).banks@, bank_id) ==> r == Err::<(), LedgerError>(
                LedgerError::BankNotFound,
            ),
            ({
                let ki = key_index(old(self).banks@, bank_id);
                let sum = branch_sum(old(self).branches@, bank_id, f);
                &&& has_key(old(self).banks@, bank_id) && !(i64::MIN <= sum <= i64::MAX) ==> r
                    == Err::<(), LedgerError>(LedgerError::Overflow)
                &&& has_key(old(self).banks@, bank_id) && i64::MIN <= sum <= i64::MAX ==> {
                    &&& r is Ok
                    &&& final(self).banks@ == old(self).banks@.update(
                        ki,
                        bank_with_total(old(self).banks@[ki], f, sum as i64),
                    )
                    &&& final(self).branches == old(self).branches
                    &&& final(self).same_leaves(old(self))
                    &&& old(self).money_balanced() ==> final(self).money_balanced()
                    &&& old(self).side_totals_ok() ==> final(self).side_totals_ok()
                }
            }),
    {
        let ki = match find_key(&self.banks, bank_id) {
            Some(i) => i,
            None => {
                return Err(LedgerError::BankNotFound);
            },
        };
        proof {
            lemma_key_index(self.banks@, ki as int);
        }
        let sum = match sum_branch_field(&self.branches, bank_id, f) {
            Some(m) => m,
            None => {
                return Err(LedgerError::Overflow);
            },
        };
        let ghost pre = *self;
        match f {
            BranchTotal::Money => {
                self.banks[ki].total_money = sum;
            },
            BranchTotal::Debt => {
                self.banks[ki].total_debt_to_collect = sum;
            },
            BranchTotal::Loans => {
                self.banks[ki].total_loans_given = sum;
            },
        }
        proof {
            let nk = bank_with_total(pre.banks@[ki as int], f, sum);
            assert(self.banks@ =~= pre.banks@.update(ki as int, nk));
            lemma_has_key_update(pre.banks@, ki as int, nk);
            lemma_keys_distinct_update(pre.banks@, ki as int, nk);
            assert forall|i: int| 0 <= i < self.banks@.len() implies self.bank_rollups_ok(
                #[trigger] self.banks@[i],
            ) by {
                assert(pre.bank_rollups_ok(pre.banks@[i]));
            }
            assert forall|i: int| 0 <= i < self.branches@.len() implies self.branch_rollups_ok(
                #[trigger] self.branches@[i],
            ) by {
                assert(pre.branch_rollups_ok(pre.branches@[i]));
            }
        }
        Ok(())
    }

    /// Re-derives the money of bank `bank_id` as the sum over its branches.
    pub fn update_total_money(&mut self, bank_id: u128) -> (r: Result<(), LedgerError>)
        requires
            old(self).wf(),
        ensures
            final(self).wf(),
            r is Err ==> *final(self) == *old(self),
            !has_key(old(self).banks@, bank_id) ==> r == Err::<(), LedgerError>(
                LedgerError::BankNotFound,
            ),
            ({
                let ki = key_index(old(self).banks@, bank_id);
                let sum = branch_money(old(self).branches@, bank_id);
                &&& has_key(old(self).banks@, bank_id) && !(i64::MIN <= sum <= i64::MAX) ==> r
                    == Err::<(), LedgerError>(LedgerError::Overflow)
                &&& has_key(old(self).banks@, bank_id) && i64::MIN <= sum <= i64::MAX ==> {
                    &&& r is Ok
                    &&& final(self).banks@ == old(self).banks@.update(
                        ki,
                        with_money(old(self).banks@[ki], sum as i64),
                    )
                    &&& final(self).branches == old(self).branches
                    &&& final(self).same_leaves(old(self))
                    &&& old(self).money_balanced() ==> final(self).money_balanced()
                }
            }),
    {
        self.rederive_bank_total(bank_id, BranchTotal::Money)
    }

    /// Re-derives the debt to collect of bank `bank_id` as the sum over its
    /// branches.
    pub fn update_total_debt_to_collect(&mut self, bank_id: u128) -> (r: Result<(), LedgerError>)
        requires
            old(self).wf(),
        ensures
            final(self).wf(),
            r is Err ==> *final(self) == *old(self),
            !has_key(old(self).banks@, bank_id) ==> r == Err::<(), LedgerError>(
                LedgerError::BankNotFound,
            ),
            ({
                let ki = key_index(old(self).banks@, bank_id);
                let sum = branch_sum(old(self).branches@, bank_id, BranchTotal::Debt);
                &&& has_key(old(self).banks@, bank_id) && !(i64::MIN <= sum <= i64::MAX) ==> r
                    == Err::<(), LedgerError>(LedgerError::Overflow)
                &&& has_key(old(self).banks@, bank_id) && i64::MIN <= sum <= i64::MAX ==> {
                    &&& r is Ok
                    &&& final(self).banks@ == old(self).banks@.update(
                        ki,
                        Bank { total_debt_to_collect: sum as i64, ..old(self).banks@[ki] },
                    )
                    &&& final(self).branches == old(self).branches
                    &&& final(self).same_leaves(old(self))
                    &&& old(self).money_balanced() ==> final(self).money_balanced()
                }
            }),
    {
        self.rederive_bank_total(bank_id, BranchTotal::Debt)
    }

    /// Re-derives the loans given of bank `bank_id` as the sum over its
    /// branches.
    pub fn update_total_loans_given(&mut self, bank_id: u128) -> (r: Result<(), LedgerError>)
        requires
            old(self).wf(),
        ensures
            final(self).wf(),
            r is Err ==> *final(self) == *old(self),
            !has_key(old(self).banks@, bank_id) ==> r == Err::<(), LedgerError>(
                LedgerError::BankNotFound,
            ),
            ({
                let ki = key_index(old(self).banks@, bank_id);
                let sum = branch_sum(old(self).branches@, bank_id, BranchTotal::Loans);
                &&& has_key(old(self).banks@, bank_id) && !(i64::MIN <= sum <= i64::MAX) ==> r
                    == Err::<(), LedgerError>(LedgerError::Overflow)
                &&& has_key(old(self).banks@, bank_id) && i64::MIN <= sum <= i64::MAX ==> {
                    &&& r is Ok
                    &&& final(self).banks@ == old(self).banks@.update(
                        ki,
                        Bank { total_loans_given: sum as i64, ..old(self).banks@[ki] },
                    )
                    &&& final(self).branches == old(self).branches
                    &&& final(self).same_leaves(old(self))
                    &&& old(self).money_balanced() ==> final(self).money_balanced()
                }
            }),
    {
        self.rederive_bank_total(bank_id, BranchTotal::Loans)
    }

    /// Re-derives every rollup from the rows: each branch's counters from its
    /// rows, each bank's counters from its rows and its money, debt to
    /// collect and loans given from its branches. Nothing is written when a
    /// bank's sum does not fit.
    pub fn propagate(&mut self) -> (r: Result<(), LedgerError>)
        requires
            old(self).rows_ok(),
        ensures
            r is Err ==> *final(self) == *old(self),
            r is Err <==> exists|j: int|
                0 <= j < old(self).banks@.len() && !bank_sums_fit(
                    old(self).branches@,
                    (#[trigger] old(self).banks@[j]).id,
                ),
            r is Ok ==> final(self).wf() && final(self).money_balanced()
                && final(self).side_totals_ok() && final(self).same_leaves(old(self)),
            r is Ok ==> final(self).branches@.len() == old(self).branches@.len() && forall|i: int|
                0 <= i < old(self).branches@.len() ==> (#[trigger] final(self).branches@[i])
                    == branch_with_counts(
                    old(self).branches@[i],
                    count_in_branch(old(self).customers@, old(self).branches@[i].id),
                    count_in_branch(old(self).accounts@, old(self).branches@[i].id),
                    count_in_branch(old(self).cards@, old(self).branches@[i].id),
                    count_in_branch(old(self).transactions@, old(self).branches@[i].id),
                ),
            old(self).wf() && old(self).money_balanced() && old(self).side_totals_ok() ==> r is Ok
                && final(self).branches@ == old(self).branches@ && final(self).banks@ == old(
                self,
            ).banks@,
    {
        let ghost pre = *self;
        let mut sums: Vec<i64> = Vec::new();
        let mut debts: Vec<i64> = Vec::new();
        let mut loans: Vec<i64> = Vec::new();
        let mut j: usize = 0;
        while j < self.banks.len()
            invariant
                *self == pre,
                j <= self.banks@.len(),
                sums@.len() == j,
                debts@.len() == j,
                loans@.len() == j,
                forall|k: int|
                    0 <= k < j ==> sums@[k] as int == branch_money(
                        self.branches@,
                        #[trigger] self.banks@[k].id,
                    ) && debts@[k] as int == branch_sum(
                        self.branches@,
                        self.banks@[k].id,
                        BranchTotal::Debt,
                    ) && loans@[k] as int == branch_sum(
                        self.branches@,
                        self.banks@[k].id,
                        BranchTotal::Loans,
                    ),
                forall|k: int| 0 <= k < j ==> bank_sums_fit(self.branches@, #[trigger] self.banks@[k].id),
            decreases self.banks@.len() - j,
        {
            let id = self.banks[j].id;
            let m = match sum_branch_field(&self.branches, id, BranchTotal::Money) {
                Some(m) => m,
                None => {
                    return Err(LedgerError::Overflow);
                },
            };
            let d = match sum_branch_field(&self.branches, id, BranchTotal::Debt) {
                Some(d) => d,
                None => {
                    return Err(LedgerError::Overflow);
                },
            };
            let l = match sum_branch_field(&self.branches, id, BranchTotal::Loans) {
                Some(l) => l,
                None => {
                    return Err(LedgerError::Overflow);
                },
            };
            sums.push(m);
            debts.push(d);
            loans.push(l);
            j = j + 1;
        }
        let mut i: usize = 0;
        while i < self.branches.len()
            invariant
                i <= self.branches@.len(),
                self.branches@.len() == pre.branches@.len(),
                self.banks == pre.banks,
                self.same_leaves(&pre),
                forall|k: int|
                    0 <= k < self.branches@.len() ==> (#[trigger] self.branches@[k]).id
                        == pre.branches@[k].id && self.branches@[k].bank_id == pre.branches@[k].bank_id
                        && self.branches@[k].total_money == pre.branches@[k].total_money
                        && self.branches@[k].debt_to_collect == pre.branches@[k].debt_to_collect
                        && self.branches@[k].loans_given == pre.branches@[k].loans_given,
                forall|k: int|
                    i <= k < self.branches@.len() ==> #[trigger] self.branches@[k] == pre.branches@[k],
                forall|k: int|
                    0 <= k < i ==> #[trigger] self.branches@[k] == branch_with_counts(
                        pre.branches@[k],
                        count_in_branch(pre.customers@, pre.branches@[k].id),
                        count_in_branch(pre.accounts@, pre.branches@[k].id),
                        count_in_branch(pre.cards@, pre.branches@[k].id),
                        count_in_branch(pre.transactions@, pre.branches@[k].id),
                    ),
            decreases self.branches@.len() - i,
        {
            self.refresh_branch(i);
            i = i + 1;
        }
        let mut j: usize = 0;
        while j < self.banks.len()
            invariant
                j <= self.banks@.len(),
                self.banks@.len() == pre.banks@.len(),
                sums@.len() == pre.banks@.len(),
                debts@.len() == pre.banks@.len(),
                loans@.len() == pre.banks@.len(),
                self.branches@.len() == pre.branches@.len(),
                self.same_leaves(&pre),
                forall|k: int|
                    0 <= k < self.branches@.len() ==> #[trigger] self.branches@[k] == branch_with_counts(
                        pre.branches@[k],
                        count_in_branch(pre.customers@, pre.branches@[k].id),
                        count_in_branch(pre.accounts@, pre.branches@[k].id),
                        count_in_branch(pre.cards@, pre.branches@[k].id),
                        count_in_branch(pre.transactions@, pre.branches@[k].id),
                    ),
                forall|k: int|
                    0 <= k < pre.banks@.len() ==> sums@[k] as int == branch_money(
                        pre.branches@,
                        #[trigger] pre.banks@[k].id,
                    ) && debts@[k] as int == branch_sum(
                        pre.branches@,
                        pre.banks@[k].id,
                        BranchTotal::Debt,
                    ) && loans@[k] as int == branch_sum(
                        pre.branches@,
                        pre.banks@[k].id,
                        BranchTotal::Loans,
                    ),
                forall|k: int| j <= k < self.banks@.len() ==> #[trigger] self.banks@[k] == pre.banks@[k],
                forall|k: int|
                    0 <= k < j ==> #[trigger] self.banks@[k] == bank_with_sums(
                        bank_with_counts(
                            pre.banks@[k],
                            count_in_bank(pre.customers@, pre.banks@[k].id),
                            count_in_bank(pre.accounts@, pre.banks@[k].id),
                            count_in_bank(pre.cards@, pre.banks@[k].id),
                            count_in_bank(pre.transactions@, pre.banks@[k].id),
                        ),
                        sums@[k],
                        debts@[k],
                        loans@[k],
                    ),
            decreases self.banks@.len() - j,
        {
            self.refresh_bank(j);
            self.banks[j].total_money = sums[j];
            self.banks[j].total_debt_to_collect = debts[j];
            self.banks[j].total_loans_given = loans[j];
            j = j + 1;
        }
        let n_customers = self.customers.len();
        let n_accounts = self.accounts.len();
        let n_cards = self.cards.len();
        let n_transactions = self.transactions.len();
        assert(n_customers as int <= u64::MAX && n_accounts as int <= u64::MAX && n_cards as int
            <= u64::MAX && n_transactions as int <= u64::MAX);
        proof {
            lemma_same_keys(self.branches@, pre.branches@);
            lemma_same_keys(self.banks@, pre.banks@);
            assert forall|k: int| 0 <= k < self.branches@.len() implies self.branch_rollups_ok(
                #[trigger] self.branches@[k],
            ) by {
                let id = pre.branches@[k].id;
                lemma_count_bounded(pre.customers@, id);
                lemma_count_bounded(pre.accounts@, id);
                lemma_count_bounded(pre.cards@, id);
                lemma_count_bounded(pre.transactions@, id);
            }
            assert forall|k: int| 0 <= k < self.banks@.len() implies self.bank_rollups_ok(
                #[trigger] self.banks@[k],
            ) by {
                let id = pre.banks@[k].id;
                lemma_count_bounded(pre.customers@, id);
                lemma_count_bounded(pre.accounts@, id);
                lemma_count_bounded(pre.cards@, id);
                lemma_count_bounded(pre.transactions@, id);
            }
            assert forall|k: int| 0 <= k < self.banks@.len() implies (
            #[trigger] self.banks@[k]).total_money as int == branch_money(
                self.branches@,
                self.banks@[k].id,
            ) by {
                lemma_money_same(self.branches@, pre.branches@, self.banks@[k].id);
            }
            assert forall|k: int| 0 <= k < self.banks@.len() implies (
            #[trigger] self.banks@[k]).total_debt_to_collect as int == branch_sum(
                self.branches@,
                self.banks@[k].id,
                BranchTotal::Debt,
            ) && self.banks@[k].total_loans_given as int == branch_sum(
                self.branches@,
                self.banks@[k].id,
                BranchTotal::Loans,
            ) by {
                lemma_sum_same(self.branches@, pre.branches@, self.banks@[k].id, BranchTotal::Debt);
                lemma_sum_same(self.branches@, pre.branches@, self.banks@[k].id, BranchTotal::Loans);
            }
            if pre.wf() && pre.money_balanced() && pre.side_totals_ok() {
                assert forall|k: int| 0 <= k < self.branches@.len() implies #[trigger] self.branches@[k]
                    == pre.branches@[k] by {
                    assert(pre.branch_rollups_ok(pre.branches@[k]));
                }
                assert forall|k: int| 0 <= k < self.banks@.len() implies #[trigger] self.banks@[k]
                    == pre.banks@[k] by {
                    assert(pre.bank_rollups_ok(pre.banks@[k]));
                }
                assert(self.branches@ =~= pre.branches@);
                assert(self.banks@ =~= pre.banks@);
            }
        }
        Ok(())
    }
}

} // verus!
