use vstd::prelude::*;

verus! {

/// Why a pool bootstrap did not take place. Every failure aborts the whole
/// operation: none of its writes stay visible.
#[derive(Clone, Copy, Debug, PartialEq, Eq, Structural)]
pub enum AmmError {
    /// A record already lives at the pool's identity.
    AlreadyInitialized,
    /// An account could not be created: the payer cannot fund it, or its
    /// address is taken by an account that does not fit.
    AccountCreationFailed,
    /// The derivation proof does not reproduce the authority it was made for.
    MintAuthorityMismatch,
    /// No bump byte gives an address off the curve.
    DerivationExhausted,
}

} // verus!
