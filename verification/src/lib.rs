//! An allowance-based spending-authorization ledger over an external balance
//! ledger: an owner grants a spender permission to move up to a bounded amount
//! of the owner's funds, and the spender draws that permission down while
//! transferring funds on the owner's behalf.

pub mod balances;
pub mod laws;
pub mod pallet;

pub use crate::balances::BalanceError;
pub use crate::balances::BalanceLedger;
pub use crate::balances::InMemoryBalances;
pub use crate::pallet::DispatchError;
pub use crate::pallet::Error;
pub use crate::pallet::Event;
pub use crate::pallet::GenesisConfig;
pub use crate::pallet::Pallet;
