use vstd::prelude::*;

use crate::aggregates::{count_bank_rows, count_in_bank, find_key, has_key, key_index, lemma_key_index};
use crate::entities::{Bank, Branch, Card, Customer, Keyed, Refund};
use crate::ledger::{copy_bank, copy_branch, Ledger, LedgerError};
use crate::lifecycle::{copy_card, copy_customer, card_number_taken};
use crate::payments::refund_exists;
use crate::settlement::card_number_index;
use crate::validation::{
    cic_ok, phone_ok, validate_cic_number, validate_customer_name,
    validate_phone_number,
};
use crate::lifecycle::reason_of as reason_text;
use crate::text::{same_text, trimmed};

verus! {

/// The branches of `s` that belong to bank `bank_id`, in order.
pub open spec fn branches_of(s: Seq<Branch>, bank_id: u128) -> Seq<Branch>
    decreases s.len(),
{
    if s.len() == 0 {
        Seq::empty()
    } else {
        let rest = branches_of(s.drop_last(), bank_id);
        if s.last().bank_id == bank_id {
            rest.push(s.last())
        } else {
            rest
        }
    }
}

/// A customer of bank `bank_id` with exactly these identity number, phone
/// number and name.
pub open spec fn customer_matches(c: Customer, cic: Seq<char>, phone: Seq<char>, name: Seq<char>, bank_id: u128) -> bool {
    c.cic_number@ == cic && c.phone_number@ == phone && c.customer_name@ == name && c.bank_id == bank_id
}

/// The reason of the first check that a customer lookup's fields fail, in
/// the order name, phone number, identity number.
pub open spec fn lookup_input_error(name: Seq<char>, phone: Seq<char>, cic: Seq<char>) -> Option<Seq<char>> {
    if trimmed(name).len() == 0 {
        Some("Customer name cannot be empty."@)
    } else if name.len() > 100 {
        Some("Customer name cannot exceed 100 characters."@)
    } else if !phone_ok(phone) {
        Some("Invalid phone number format."@)
    } else if !cic_ok(cic) {
        Some("Invalid CIC number format or length."@)
    } else {
        None
    }
}

impl Ledger {
    /// The bank with identifier `bank_id`, if any.
    pub fn get_bank_by_id(&self, bank_id: u128) -> (r: Option<Bank>)
        requires
            self.wf(),
        ensures
            match r {
                Some(b) => has_key(self.banks@, bank_id) && b == self.banks@[key_index(
                    self.banks@,
                    bank_id,
                )],
                None => !has_key(self.banks@, bank_id),
            },
    {
        match find_key(&self.banks, bank_id) {
            Some(i) => {
                proof {
                    lemma_key_index(self.banks@, i as int);
                }
                Some(copy_bank(&self.banks[i]))
            },
            None => None,
        }
    }

    /// The first bank named `bank_name`, if any.
    pub fn get_by_bank_name(&self, bank_name: &String) -> (r: Option<Bank>)
        ensures
            match r {
                Some(b) => exists|i: int|
                    0 <= i < self.banks@.len() && self.banks@[i] == b && b.bank_name@ == bank_name@
                        && forall|j: int| 0 <= j < i ==> (#[trigger] self.banks@[j]).bank_name@
                        != bank_name@,
                None => forall|j: int|
                    0 <= j < self.banks@.len() ==> (#[trigger] self.banks@[j]).bank_name@
                        != bank_name@,
            },
    {
        let mut i: usize = 0;
        while i < self.banks.len()
            invariant
                i <= self.banks@.len(),
                forall|j: int| 0 <= j < i ==> (#[trigger] self.banks@[j]).bank_name@ != bank_name@,
            decreases self.banks@.len() - i,
        {
            if self.banks[i].bank_name == *bank_name {
                return Some(copy_bank(&self.banks[i]));
            }
            i = i + 1;
        }
        None
    }

    /// The branch with identifier `branch_id`.
    pub fn get_branch_by_id(&self, branch_id: u128) -> (r: Result<Branch, LedgerError>)
        requires
            self.wf(),
        ensures
            match r {
                Ok(b) => has_key(self.branches@, branch_id) && b == self.branches@[key_index(
                    self.branches@,
                    branch_id,
                )],
                Err(e) => !has_key(self.branches@, branch_id) && e == LedgerError::BranchNotFound,
            },
    {
        match find_key(&self.branches, branch_id) {
            Some(i) => {
                proof {
                    lemma_key_index(self.branches@, i as int);
                }
                Ok(copy_branch(&self.branches[i]))
            },
            None => Err(LedgerError::BranchNotFound),
        }
    }

    /// The branches of bank `bank_id`, in the order they were created.
    pub fn get_branches_by_bank_id(&self, bank_id: u128) -> (r: Vec<Branch>)
        ensures
            r@ == branches_of(self.branches@, bank_id),
    {
        let mut out: Vec<Branch> = Vec::new();
        let mut i: usize = 0;
        while i < self.branches.len()
            invariant
                i <= self.branches@.len(),
                out@ == branches_of(self.branches@.take(i as int), bank_id),
            decreases self.branches@.len() - i,
        {
            assert(self.branches@.take(i as int + 1).drop_last() =~= self.branches@.take(i as int));
            if self.branches[i].bank_id == bank_id {
                out.push(copy_branch(&self.branches[i]));
            }
            i = i + 1;
        }
        assert(self.branches@.take(i as int) =~= self.branches@);
        out
    }

    /// How many customers bank `bank_id` has.
    pub fn get_total_customers_count(&self, bank_id: u128) -> (r: u64)
        ensures
            r == count_in_bank(self.customers@, bank_id),
    {
        count_bank_rows(&self.customers, bank_id)
    }

    /// The card numbered `card_number`, if any.
    pub fn get_by_card_number(&self, card_number: &String) -> (r: Option<Card>)
        requires
            self.wf(),
        ensures
            match r {
                Some(c) => card_number_taken(self.cards@, card_number@) && c == self.cards@[card_number_index(
                    self.cards@,
                    card_number@,
                )],
                None => !card_number_taken(self.cards@, card_number@),
            },
    {
        match self.find_card_number(card_number) {
            Some(i) => Some(copy_card(&self.cards[i])),
            None => None,
        }
    }

    /// The refund of transaction `transaction_id`, if it has one.
    pub fn get_by_transaction_id(&self, transaction_id: u128) -> (r: Option<Refund>)
        ensures
            match r {
                Some(f) => f.transaction_id == transaction_id && exists|i: int|
                    0 <= i < self.refunds@.len() && self.refunds@[i] == f,
                None => !refund_exists(self.refunds@, transaction_id),
            },
    {
        let mut i: usize = 0;
        while i < self.refunds.len()
            invariant
                i <= self.refunds@.len(),
                forall|j: int|
                    0 <= j < i ==> (#[trigger] self.refunds@[j]).transaction_id != transaction_id,
            decreases self.refunds@.len() - i,
        {
            if self.refunds[i].transaction_id == transaction_id {
                let f = &self.refunds[i];
                return Some(Refund { ..*f });
            }
            i = i + 1;
        }
        None
    }

    /// Whether the card numbered `card_number` is issued on account `account_id`.
    pub fn card_belongs_to_account(&self, card_number: &String, account_id: u128) -> (r: bool)
        requires
            self.wf(),
        ensures
            r == (card_number_taken(self.cards@, card_number@) && has_key(self.accounts@, account_id)
                && self.cards@[card_number_index(self.cards@, card_number@)].account_number@
                == self.accounts@[key_index(self.accounts@, account_id)].account_number@),
    {
        let ci = match self.find_card_number(card_number) {
            Some(i) => i,
            None => {
                return false;
            },
        };
        let ai = match find_key(&self.accounts, account_id) {
            Some(i) => i,
            None => {
                return false;
            },
        };
        proof {
            lemma_key_index(self.accounts@, ai as int);
        }
        self.cards[ci].account_number == self.accounts[ai].account_number
    }

    /// The customer of bank `bank_id` with this identity number, phone
    /// number and name. The fields are checked first.
    pub fn get_customer_by_cic_phone_name_and_bank_id(
        &self,
        cic_number: &str,
        phone_number: &str,
        customer_name: &str,
        bank_id: u128,
    ) -> (r: Result<Customer, LedgerError>)
        ensures
            ({
                let err = lookup_input_error(customer_name@, phone_number@, cic_number@);
                &&& err is Some ==> (r matches Err(LedgerError::InvalidInput(m)) && m@ == err->0)
                &&& err is None ==> match r {
                    Ok(c) => customer_matches(c, cic_number@, phone_number@, customer_name@, bank_id)
                        && exists|i: int| 0 <= i < self.customers@.len() && self.customers@[i] == c,
                    Err(e) => e == LedgerError::CustomerNotFound && forall|i: int|
                        0 <= i < self.customers@.len() ==> !customer_matches(
                            #[trigger] self.customers@[i],
                            cic_number@,
                            phone_number@,
                            customer_name@,
                            bank_id,
                        ),
                }
            }),
    {
        let v = validate_customer_name(customer_name);
        if !v.is_valid {
            return Err(LedgerError::InvalidInput(reason_text(v)));
        }
        let v = validate_phone_number(phone_number);
        if !v.is_valid {
            return Err(LedgerError::InvalidInput(reason_text(v)));
        }
        let v = validate_cic_number(cic_number);
        if !v.is_valid {
            return Err(LedgerError::InvalidInput(reason_text(v)));
        }
        let mut i: usize = 0;
        while i < self.customers.len()
            invariant
                lookup_input_error(customer_name@, phone_number@, cic_number@) is None,
                i <= self.customers@.len(),
                forall|j: int|
                    0 <= j < i ==> !customer_matches(
                        #[trigger] self.customers@[j],
                        cic_number@,
                        phone_number@,
                        customer_name@,
                        bank_id,
                    ),
            decreases self.customers@.len() - i,
        {
            let c = &self.customers[i];
            if c.bank_id == bank_id && same_text(c.cic_number.as_str(), cic_number) && same_text(
                c.phone_number.as_str(),
                phone_number,
            ) && same_text(c.customer_name.as_str(), customer_name) {
                let found = copy_customer(c);
                assert(self.customers@[i as int] == found);
                return Ok(found);
            }
            i = i + 1;
        }
        Err(LedgerError::CustomerNotFound)
    }
}

} // verus!
