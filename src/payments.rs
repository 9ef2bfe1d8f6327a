use vstd::prelude::*;
use vstd::string::StringExecFns;

use crate::aggregates::{
    find_key, has_key, key_index, lemma_counts_push, lemma_has_key_push, lemma_key_index,
    lemma_keys_distinct_push, lemma_push_counts_elsewhere,
};
use crate::entities::{Keyed, Owned, Refund, Transaction};
use crate::ledger::{counts_kept_except, lemma_recount_restores, Ledger, LedgerError};
use crate::types::{CardStatus, Date, Status, TransactionType};

verus! {

/// Some transaction of `txs` was made with the card `card_id`.
pub open spec fn card_has_payment(txs: Seq<Transaction>, card_id: u128) -> bool {
    exists|i: int| 0 <= i < txs.len() && (#[trigger] txs[i]).card_id == card_id
}

/// The place of the payment made with card `card_id`; meaningful when
/// `card_has_payment(txs, card_id)`.
pub open spec fn payment_index(txs: Seq<Transaction>, card_id: u128) -> int {
    choose|i: int| 0 <= i < txs.len() && (#[trigger] txs[i]).card_id == card_id
}

/// Some refund of `refunds` is for the transaction `transaction_id`.
pub open spec fn refund_exists(refunds: Seq<Refund>, transaction_id: u128) -> bool {
    exists|i: int| 0 <= i < refunds.len() && (#[trigger] refunds[i]).transaction_id == transaction_id
}

pub(crate) fn copy_transaction(t: &Transaction) -> (r: Transaction)
    ensures
        r == *t,
{
    Transaction {
        branch_id: t.branch_id,
        bank_id: t.bank_id,
        id: t.id,
        card_id: t.card_id,
        account_number: t.account_number.clone(),
        transaction_type: t.transaction_type,
        card_number: t.card_number.clone(),
        amount: t.amount,
        transaction_date: t.transaction_date,
        status: t.status,
    }
}

impl Ledger {
    fn payment_on_card(&self, card_id: u128) -> (r: Option<usize>)
        requires
            self.payments_ok(),
        ensures
            match r {
                Some(i) => card_has_payment(self.transactions@, card_id) && i == payment_index(
                    self.transactions@,
                    card_id,
                ) && i < self.transactions@.len(),
                None => !card_has_payment(self.transactions@, card_id),
            },
    {
        let mut i: usize = 0;
        while i < self.transactions.len()
            invariant
                self.payments_ok(),
                i <= self.transactions@.len(),
                forall|j: int| 0 <= j < i ==> (#[trigger] self.transactions@[j]).card_id != card_id,
            decreases self.transactions@.len() - i,
        {
            if self.transactions[i].card_id == card_id {
                proof {
                    assert(self.transactions@[i as int].card_id == card_id);
                    let k = payment_index(self.transactions@, card_id);
                    if k != i {
                        assert(self.transactions@[k].card_id != self.transactions@[i as int].card_id);
                    }
                }
                return Some(i);
            }
            i = i + 1;
        }
        None
    }

    fn refund_for(&self, transaction_id: u128) -> (r: bool)
        ensures
            r == refund_exists(self.refunds@, transaction_id),
    {
        let mut i: usize = 0;
        while i < self.refunds.len()
            invariant
                i <= self.refunds@.len(),
                forall|j: int|
                    0 <= j < i ==> (#[trigger] self.refunds@[j]).transaction_id != transaction_id,
            decreases self.refunds@.len() - i,
        {
            if self.refunds[i].transaction_id == transaction_id {
                return true;
            }
            i = i + 1;
        }
        false
    }

    /// Records an approved card charge of `amount` on card `card_id`. A card
    /// that already has a payment on file gets no second one, and a negative
    /// amount is turned down before anything is looked up.
    pub fn capture_payment(&mut self, card_id: u128, payment_id: u128, amount: i64, today: Date) -> (r:
        Result<Transaction, LedgerError>)
        requires
            old(self).wf(),
        ensures
            final(self).wf(),
            old(self).money_balanced() ==> final(self).money_balanced(),
            r is Err ==> *final(self) == *old(self),
            amount < 0 ==> (r matches Err(LedgerError::InvalidInput(m)) && m@
                == "invalid amount must be a interger (> 0)"@),
            amount >= 0 && !has_key(old(self).cards@, card_id) ==> r == Err::<
                Transaction,
                LedgerError,
            >(LedgerError::CardNotFound),
            ({
                let c = old(self).cards@[key_index(old(self).cards@, card_id)];
                let ready = amount >= 0 && has_key(old(self).cards@, card_id);
                let dup = card_has_payment(old(self).transactions@, card_id);
                &&& ready && dup ==> r == Err::<Transaction, LedgerError>(
                    LedgerError::DuplicatePayment(
                        old(self).transactions@[payment_index(old(self).transactions@, card_id)],
                    ),
                )
                &&& ready && !dup && c.card_status == CardStatus::Closed ==> r == Err::<
                    Transaction,
                    LedgerError,
                >(LedgerError::CardNotActive)
                &&& ready && !dup && c.card_status != CardStatus::Closed && has_key(
                    old(self).transactions@,
                    payment_id,
                ) ==> r == Err::<Transaction, LedgerError>(LedgerError::DuplicateId)
                &&& ready && !dup && c.card_status != CardStatus::Closed && !has_key(
                    old(self).transactions@,
                    payment_id,
                ) ==> {
                    let bi = key_index(old(self).branches@, c.branch_id);
                    let ki = key_index(old(self).banks@, c.bank_id);
                    &&& r == Ok::<Transaction, LedgerError>(
                        Transaction {
                            branch_id: c.branch_id,
                            bank_id: c.bank_id,
                            id: payment_id,
                            card_id,
                            account_number: c.account_number,
                            transaction_type: TransactionType::DebitCardCharge,
                            card_number: c.card_number,
                            amount,
                            transaction_date: today,
                            status: Status::Approved,
                        },
                    )
                    &&& final(self).transactions@ == old(self).transactions@.push(r->Ok_0)
                    &&& final(self).cards == old(self).cards
                    &&& final(self).accounts == old(self).accounts
                    &&& final(self).branches@[bi].total_transactions
                        == old(self).branches@[bi].total_transactions + 1
                    &&& final(self).banks@[ki].total_transactions
                        == old(self).banks@[ki].total_transactions + 1
                }
            }),
    {
        if amount < 0 {
            return Err(
                LedgerError::InvalidInput(
                    String::from_str("invalid amount must be a interger (> 0)"),
                ),
            );
        }
        let ci = match find_key(&self.cards, card_id) {
            Some(i) => i,
            None => {
                return Err(LedgerError::CardNotFound);
            },
        };
        proof {
            lemma_key_index(self.cards@, ci as int);
        }
        if let Some(pi) = self.payment_on_card(card_id) {
            return Err(LedgerError::DuplicatePayment(copy_transaction(&self.transactions[pi])));
        }
        if self.cards[ci].card_status == CardStatus::Closed {
            return Err(LedgerError::CardNotActive);
        }
        if find_key(&self.transactions, payment_id).is_some() {
            return Err(LedgerError::DuplicateId);
        }
        let branch_id = self.cards[ci].branch_id;
        let bank_id = self.cards[ci].bank_id;
        assert(has_key(self.branches@, self.cards@[ci as int].row_branch()));
        let bi = match find_key(&self.branches, branch_id) {
            Some(i) => i,
            None => {
                return Err(LedgerError::BranchNotFound);
            },
        };
        let ki = match find_key(&self.banks, bank_id) {
            Some(i) => i,
            None => {
                return Err(LedgerError::BankNotFound);
            },
        };
        proof {
            lemma_key_index(self.branches@, bi as int);
            lemma_key_index(self.banks@, ki as int);
        }
        let tx = Transaction {
            branch_id,
            bank_id,
            id: payment_id,
            card_id,
            account_number: self.cards[ci].account_number.clone(),
            transaction_type: TransactionType::DebitCardCharge,
            card_number: self.cards[ci].card_number.clone(),
            amount,
            transaction_date: today,
            status: Status::Approved,
        };
        let result = copy_transaction(&tx);
        let ghost pre = *self;
        proof {
            lemma_keys_distinct_push(pre.transactions@, tx);
            lemma_push_counts_elsewhere(pre.transactions@, tx);
            lemma_has_key_push(pre.transactions@, tx);
        }
        self.transactions.push(tx);
        let ghost mid = *self;
        proof {
            assert(counts_kept_except(
                pre,
                mid,
                pre.branches@[bi as int].id,
                pre.banks@[ki as int].id,
            ));
        }
        self.recount(bi, ki);
        proof {
            lemma_recount_restores(pre, mid, *self, bi as int, ki as int);
            lemma_counts_push(pre.transactions@, tx, branch_id);
            lemma_counts_push(pre.transactions@, tx, bank_id);
            assert(pre.branch_rollups_ok(pre.branches@[bi as int]));
            assert(pre.bank_rollups_ok(pre.banks@[ki as int]));
            assert(self.transactions@[pre.transactions@.len() as int] == tx);
            assert forall|j: int| 0 <= j < pre.transactions@.len() implies self.transactions@[j]
                == pre.transactions@[j] by {}
            assert forall|i: int, j: int|
                0 <= i < self.transactions@.len() && 0 <= j < self.transactions@.len() && i != j
                implies (#[trigger] self.transactions@[i]).card_id
                != (#[trigger] self.transactions@[j]).card_id by {
                if i == pre.transactions@.len() {
                    assert(pre.transactions@[j].card_id != card_id);
                } else if j == pre.transactions@.len() {
                    assert(pre.transactions@[i].card_id != card_id);
                }
            }
            assert forall|i: int, j: int|
                0 <= i < self.refunds@.len() && 0 <= j < self.transactions@.len() && (
                #[trigger] self.refunds@[i]).transaction_id == (
                #[trigger] self.transactions@[j]).id implies self.refunds@[i].refund_amount
                <= self.transactions@[j].amount by {
                if j == pre.transactions@.len() {
                    assert(has_key(pre.transactions@, pre.refunds@[i].transaction_id));
                }
            }
        }
        Ok(result)
    }

    /// Records a pending refund of `refund_amount` for the transaction
    /// `transaction_id`, dated `today`. A transaction is refunded at most
    /// once, and never by more than its amount.
    pub fn create_refund(
        &mut self,
        transaction_id: u128,
        refund_id: u128,
        refund_amount: i64,
        today: Date,
    ) -> (r: Result<Refund, LedgerError>)
        requires
            old(self).wf(),
        ensures
            final(self).wf(),
            old(self).money_balanced() ==> final(self).money_balanced(),
            r is Err ==> *final(self) == *old(self),
            refund_exists(old(self).refunds@, transaction_id) ==> r == Err::<Refund, LedgerError>(
                LedgerError::DuplicateRefund,
            ),
            !refund_exists(old(self).refunds@, transaction_id) && !has_key(
                old(self).transactions@,
                transaction_id,
            ) ==> r == Err::<Refund, LedgerError>(LedgerError::TransactionNotFound),
            ({
                let t = old(self).transactions@[key_index(old(self).transactions@, transaction_id)];
                let ready = !refund_exists(old(self).refunds@, transaction_id) && has_key(
                    old(self).transactions@,
                    transaction_id,
                );
                &&& ready && refund_amount < 0 ==> (r matches Err(LedgerError::InvalidInput(m))
                    && m@ == "Refund amount cannot be negative."@)
                &&& ready && refund_amount >= 0 && refund_amount > t.amount ==> r == Err::<
                    Refund,
                    LedgerError,
                >(LedgerError::RefundExceedsAmount)
                &&& ready && 0 <= refund_amount <= t.amount && has_key(old(self).refunds@, refund_id)
                    ==> r == Err::<Refund, LedgerError>(LedgerError::DuplicateId)
                &&& ready && 0 <= refund_amount <= t.amount && !has_key(
                    old(self).refunds@,
                    refund_id,
                ) ==> {
                    &&& r == Ok::<Refund, LedgerError>(
                        Refund {
                            branch_id: t.branch_id,
                            bank_id: t.bank_id,
                            id: refund_id,
                            transaction_id,
                            refund_amount,
                            refund_date: today,
                            status: Status::Pending,
                        },
                    )
                    &&& final(self).refunds@ == old(self).refunds@.push(r->Ok_0)
                    &&& final(self).transactions == old(self).transactions
                    &&& final(self).banks == old(self).banks
                    &&& final(self).branches == old(self).branches
                }
            }),
    {
        if self.refund_for(transaction_id) {
            return Err(LedgerError::DuplicateRefund);
        }
        let ti = match find_key(&self.transactions, transaction_id) {
            Some(i) => i,
            None => {
                return Err(LedgerError::TransactionNotFound);
            },
        };
        proof {
            lemma_key_index(self.transactions@, ti as int);
        }
        if refund_amount < 0 {
            return Err(
                LedgerError::InvalidInput(String::from_str("Refund amount cannot be negative.")),
            );
        }
        if refund_amount > self.transactions[ti].amount {
            return Err(LedgerError::RefundExceedsAmount);
        }
        if find_key(&self.refunds, refund_id).is_some() {
            return Err(LedgerError::DuplicateId);
        }
        let refund = Refund {
            branch_id: self.transactions[ti].branch_id,
            bank_id: self.transactions[ti].bank_id,
            id: refund_id,
            transaction_id,
            refund_amount,
            refund_date: today,
            status: Status::Pending,
        };
        let result = Refund { ..refund };
        let ghost pre = *self;
        proof {
            lemma_keys_distinct_push(pre.refunds@, refund);
        }
        self.refunds.push(refund);
        proof {
            assert(self.refunds@[pre.refunds@.len() as int] == refund);
            assert forall|j: int| 0 <= j < pre.refunds@.len() implies self.refunds@[j]
                == pre.refunds@[j] by {}
            assert forall|i: int, j: int|
                0 <= i < self.refunds@.len() && 0 <= j < self.refunds@.len() && i != j implies (
                #[trigger] self.refunds@[i]).transaction_id != (
                #[trigger] self.refunds@[j]).transaction_id by {
                if i == pre.refunds@.len() {
                    assert(pre.refunds@[j].transaction_id != transaction_id);
                } else if j == pre.refunds@.len() {
                    assert(pre.refunds@[i].transaction_id != transaction_id);
                }
            }
            assert forall|i: int, j: int|
                0 <= i < self.refunds@.len() && 0 <= j < self.transactions@.len() && (
                #[trigger] self.refunds@[i]).transaction_id == (
                #[trigger] self.transactions@[j]).id implies self.refunds@[i].refund_amount
                <= self.transactions@[j].amount by {
                if i == pre.refunds@.len() {
                    assert(self.transactions@[j].row_id() == self.transactions@[ti as int].row_id());
                }
            }
        }
        Ok(result)
    }
}

} // verus!
