//! A two-party atomic escrow: a maker locks a quantity of one asset in
//! custody and names the quantity of another asset wanted in return; a taker
//! may settle the trade by paying the maker, or the maker may cancel and
//! reclaim the deposit. Three operations — make, take, refund — act on a
//! ledger of balances and live escrow records, and the custody and
//! authorization invariants are proved.

pub mod instructions;
pub mod laws;
pub mod state;
