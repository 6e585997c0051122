//! Bootstrapping of a two-asset liquidity pool: derivation of the pool's
//! program-owned authority, and the all-or-nothing setup of the pool record,
//! its liquidity mint and its token vaults over a model of the account ledger.

pub mod authority;
pub mod error;
pub mod fees;
pub mod ledger;
pub mod pool;

pub use authority::{derive_authority, authority_tag, DerivationProof};
pub use error::AmmError;
pub use fees::{build_fees, CurveInput, FeesInput};
pub use ledger::{AccountState, Ledger, LedgerAccount, MintState, TokenState};
pub use pool::{initialize, AmmData, InitializeAMM};
