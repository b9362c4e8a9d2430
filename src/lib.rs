// A fungible-token ledger: balances and allowances over three kinds of holder,
// a fee model, a hash-chained block log, and the bookkeeping that moves old
// blocks out to archive units.
use vstd::prelude::*;

pub mod block;
pub mod bytes;
pub mod fee;
pub mod holder;
pub mod ledger;
pub mod table;
pub mod text;
pub mod types;

verus! {

} // verus!
