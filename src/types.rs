use vstd::prelude::*;

verus! {

/// The kind of an account.
#[derive(Debug, Clone, Copy, PartialEq, Eq, Structural)]
pub enum AccountType {
    Checkings,
    Savings,
    Credits,
}

/// The life-cycle state of a card: `Active` then `Inactive` then `Closed`.
#[derive(Debug, Clone, Copy, PartialEq, Eq, Structural)]
pub enum CardStatus {
    Active,
    Inactive,
    Closed,
}

/// Whether a card draws on its own balance or on credit.
#[derive(Debug, Clone, Copy, PartialEq, Eq, Structural)]
pub enum CardType {
    Debit,
    Credit,
}

/// The settlement state of a transaction or a refund.
#[derive(Debug, Clone, Copy, PartialEq, Eq, Structural)]
pub enum Status {
    Pending,
    Approved,
    Rejected,
    Close,
}

/// What a transaction moved money for.
#[derive(Debug, Clone, Copy, PartialEq, Eq, Structural)]
pub enum TransactionType {
    RepayLoan,
    RepayInterest,
    P2P,
    CashWithdrawal,
    CashDeposit,
    DebitCardCharge,
}

/// The one forward step a card's status may take: `Active` to `Inactive`,
/// `Inactive` to `Closed`. `Closed` is terminal.
pub open spec fn next_status(from: CardStatus) -> Option<CardStatus> {
    match from {
        CardStatus::Active => Some(CardStatus::Inactive),
        CardStatus::Inactive => Some(CardStatus::Closed),
        CardStatus::Closed => None,
    }
}

impl CardStatus {
    /// Whether a card may move from `self` to `to`.
    pub fn can_become(&self, to: CardStatus) -> (r: bool)
        ensures
            r == (next_status(*self) == Some(to)),
    {
        match self {
            CardStatus::Active => to == CardStatus::Inactive,
            CardStatus::Inactive => to == CardStatus::Closed,
            CardStatus::Closed => false,
        }
    }
}

/// A calendar day, compared by year, then month, then day.
#[derive(Debug, Clone, Copy, PartialEq, Eq, Structural)]
pub struct Date {
    pub year: i32,
    pub month: u32,
    pub day: u32,
}

/// `a` falls on or before `b`.
pub open spec fn date_le(a: Date, b: Date) -> bool {
    a.year < b.year || (a.year == b.year && (a.month < b.month || (a.month == b.month && a.day
        <= b.day)))
}

impl Date {
    /// Whether `self` falls on or before `other`.
    pub fn on_or_before(&self, other: &Date) -> (r: bool)
        ensures
            r == date_le(*self, *other),
    {
        self.year < other.year || (self.year == other.year && (self.month < other.month || (
        self.month == other.month && self.day <= other.day)))
    }
}

} // verus!
