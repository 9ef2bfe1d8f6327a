//! A bank ledger whose settlement operations keep branch and bank rollups
//! consistent with the rows they summarise.

pub mod types;
pub mod card_checks;
pub mod text;
pub mod validation;
pub mod entities;
pub mod aggregates;
pub mod ids;
pub mod ledger;
pub mod lifecycle;
pub mod settlement;
pub mod payments;
pub mod responses;
pub mod queries;
