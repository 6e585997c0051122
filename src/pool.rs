use crate::authority::{
    authority_seeds, authority_tag, authority_tag_spec, derive_authority, derived_authority,
    lemma_search_found, program_address, signer_seeds,
};
use crate::error::AmmError;
use crate::ledger::{
    accounts_view, holds, index_of, lemma_lookup_at, lookup, position, unique_keys, AccountModel,
    AccountState, Ledger, LedgerAccount, MintModel, MintState, StateModel, TokenModel, TokenState,
};
use vstd::prelude::*;

verus! {

/// The pool record: whether the pool is set up, and where its vaults and
/// mints live.
#[derive(Clone, Copy, Debug, PartialEq, Eq)]
pub struct AmmData {
    pub is_initialized: bool,
    pub token_a_account: [u8; 32],
    pub token_b_account: [u8; 32],
    pub pool_mint: [u8; 32],
    pub token_a_mint: [u8; 32],
    pub token_b_mint: [u8; 32],
    pub pool_fee_account: [u8; 32],
}

/// Mathematical view of a pool record.
pub struct PoolModel {
    pub is_initialized: bool,
    pub token_a_account: Seq<u8>,
    pub token_b_account: Seq<u8>,
    pub pool_mint: Seq<u8>,
    pub token_a_mint: Seq<u8>,
    pub token_b_mint: Seq<u8>,
    pub pool_fee_account: Seq<u8>,
}

impl View for AmmData {
    type V = PoolModel;

    open spec fn view(&self) -> PoolModel {
        PoolModel {
            is_initialized: self.is_initialized,
            token_a_account: self.token_a_account@,
            token_b_account: self.token_b_account@,
            pool_mint: self.pool_mint@,
            token_a_mint: self.token_a_mint@,
            token_b_mint: self.token_b_mint@,
            pool_fee_account: self.pool_fee_account@,
        }
    }
}

/// Bytes reserved for a pool record: a header, the flag, six addresses.
pub const POOL_RECORD_SPACE: usize = 8 + 1 + 32 * 6;

/// Bytes of a mint account.
pub const MINT_SPACE: usize = 82;

/// Bytes of a token account.
pub const TOKEN_ACCOUNT_SPACE: usize = 165;

/// Fractional digits of the liquidity mint.
pub const POOL_MINT_DECIMALS: u8 = 9;

/// The addresses that a pool bootstrap is handed: the pool's identity, the
/// paying depositor, a free address for the new liquidity mint, and the mints
/// of the two reserve assets.
#[derive(Clone, Copy, Debug, PartialEq, Eq)]
pub struct InitializeAMM {
    pub amm_data: [u8; 32],
    pub source_account: [u8; 32],
    pub pool_mint: [u8; 32],
    pub token_a_mint: [u8; 32],
    pub token_b_mint: [u8; 32],
}

/// The address of the token account that `wallet` holds for `mint`; `None`
/// when no bump byte gives one.
pub uninterp spec fn associated_address(wallet: Seq<u8>, mint: Seq<u8>) -> Option<Seq<u8>>;

/// The balance that exempts an account of `data_len` bytes from rent under the
/// default rent schedule: 3480 lamports per byte-year, held for two years,
/// over the data and 128 bytes of account overhead.
pub open spec fn rent_exempt_minimum(data_len: usize) -> u64 {
    ((128 + data_len) * 3480 * 2) as u64
}

/// Relies on `Pubkey::try_find_program_address` over the seeds that
/// `get_associated_token_address` uses (wallet, token program, mint) under the
/// associated token program: the associated token account address of `wallet`
/// for `mint`, or `None` where `get_associated_token_address` would panic.
#[verifier::external_body]
fn associated_token_address(wallet: &[u8; 32], mint: &[u8; 32]) -> (r: Option<[u8; 32]>)
    ensures
        match associated_address(wallet@, mint@) {
            Some(a) => r matches Some(x) && x@ == a,
            None => r is None,
        },
{
    let token_program = anchor_spl::token::ID.to_bytes();
    let seeds: [&[u8]; 3] = [wallet.as_slice(), token_program.as_slice(), mint.as_slice()];
    anchor_lang::prelude::Pubkey::try_find_program_address(&seeds, &anchor_spl::associated_token::ID)
        .map(|(address, _)| address.to_bytes())
}

/// Relies on `Rent::minimum_balance` of `Rent::default()`: with the default
/// schedule's constants, `(128 + data_len) * 3480` lamports per year, twice.
/// Below the account size limit the product is exact in `f64` and does not
/// overflow.
#[verifier::external_body]
fn rent_exempt(data_len: usize) -> (r: u64)
    requires
        data_len <= 10485760,
    ensures
        r == rent_exempt_minimum(data_len),
{
    anchor_lang::solana_program::rent::Rent::default().minimum_balance(data_len)
}

/// The associated token account address of `wallet` for `mint`; empty when
/// there is none.
pub open spec fn vault_key(wallet: Seq<u8>, mint: Seq<u8>) -> Seq<u8> {
    match associated_address(wallet, mint) {
        Some(k) => k,
        None => Seq::empty(),
    }
}

/// Whether the four token accounts of a bootstrap have addresses: the two
/// reserve vaults and the fee vault of the authority, the depositor's
/// liquidity account.
pub open spec fn vaults_addressable(a: InitializeAMM, authority: Seq<u8>) -> bool {
    &&& associated_address(authority, a.token_a_mint@) is Some
    &&& associated_address(authority, a.token_b_mint@) is Some
    &&& associated_address(authority, a.pool_mint@) is Some
    &&& associated_address(a.source_account@, a.pool_mint@) is Some
}

/// A token account at `key` for `mint` in the custody of `owner`.
pub open spec fn token_model(key: Seq<u8>, mint: Seq<u8>, owner: Seq<u8>, amount: u64) -> AccountModel {
    AccountModel {
        key,
        lamports: rent_exempt_minimum(TOKEN_ACCOUNT_SPACE),
        state: StateModel::Token(TokenModel { mint, owner, amount }),
    }
}

/// The pool record written at bootstrap, given the derived authority.
pub open spec fn pool_record(a: InitializeAMM, authority: Seq<u8>) -> PoolModel {
    PoolModel {
        is_initialized: true,
        token_a_account: vault_key(authority, a.token_a_mint@),
        token_b_account: vault_key(authority, a.token_b_mint@),
        pool_mint: a.pool_mint@,
        token_a_mint: a.token_a_mint@,
        token_b_mint: a.token_b_mint@,
        pool_fee_account: vault_key(authority, a.pool_mint@),
    }
}

/// The new accounts `p` after a reserve vault at `vault` for `mint` has been
/// provisioned over the accounts `s` that existed before: an existing vault is
/// reused when it holds `mint` in the custody of `authority`; an absent one is
/// created. `None` when `mint` is no mint or the address holds something else.
pub open spec fn provision_reserve(
    s: Seq<AccountModel>,
    p: Seq<AccountModel>,
    vault: Seq<u8>,
    mint: Seq<u8>,
    authority: Seq<u8>,
) -> Option<Seq<AccountModel>> {
    if !(lookup(s + p, mint) matches Some(m) && m.state is Mint) {
        None
    } else if !holds(s + p, vault) {
        Some(p.push(token_model(vault, mint, authority, 0)))
    } else if lookup(s + p, vault) matches Some(v) && v.state matches StateModel::Token(t) && t.mint
        == mint && t.owner == authority {
        Some(p)
    } else {
        None
    }
}

/// The new accounts `p` after an account `x` has been created at a free
/// address; `None` when the address is taken.
pub open spec fn create_fresh(s: Seq<AccountModel>, p: Seq<AccountModel>, x: AccountModel) -> Option<
    Seq<AccountModel>,
> {
    if holds(s + p, x.key) {
        None
    } else {
        Some(p.push(x))
    }
}

/// The accounts a bootstrap creates over `s`, in order: the pool record, the
/// liquidity mint (holding the one unit issued), the two reserve vaults where
/// they are new, the fee vault and the depositor's liquidity account (holding
/// that unit). `None` when one of them has no address or cannot be placed.
pub open spec fn planned_accounts(s: Seq<AccountModel>, a: InitializeAMM, authority: Seq<u8>) -> Option<
    Seq<AccountModel>,
> {
    let record = AccountModel {
        key: a.amm_data@,
        lamports: rent_exempt_minimum(POOL_RECORD_SPACE),
        state: StateModel::Pool(pool_record(a, authority)),
    };
    let mint = AccountModel {
        key: a.pool_mint@,
        lamports: rent_exempt_minimum(MINT_SPACE),
        state: StateModel::Mint(
            MintModel { mint_authority: authority, decimals: POOL_MINT_DECIMALS, supply: 1 },
        ),
    };
    let fee = token_model(vault_key(authority, a.pool_mint@), a.pool_mint@, authority, 0);
    let receipt = token_model(
        vault_key(a.source_account@, a.pool_mint@),
        a.pool_mint@,
        a.source_account@,
        1,
    );
    if !vaults_addressable(a, authority) {
        None
    } else {
    match create_fresh(s, Seq::empty(), record) {
        None => None,
        Some(with_record) => match create_fresh(s, with_record, mint) {
            None => None,
            Some(with_mint) => match provision_reserve(
                s,
                with_mint,
                vault_key(authority, a.token_a_mint@),
                a.token_a_mint@,
                authority,
            ) {
                None => None,
                Some(with_vault_a) => match provision_reserve(
                    s,
                    with_vault_a,
                    vault_key(authority, a.token_b_mint@),
                    a.token_b_mint@,
                    authority,
                ) {
                    None => None,
                    Some(with_vault_b) => match create_fresh(s, with_vault_b, fee) {
                        None => None,
                        Some(with_fee) => create_fresh(s, with_fee, receipt),
                    },
                },
            },
        },
    }
}
}

/// The lamports that the accounts `p` hold, paid by the depositor.
pub open spec fn total_lamports(p: Seq<AccountModel>) -> int
    decreases p.len(),
{
    if p.len() == 0 {
        0
    } else {
        total_lamports(p.drop_last()) + p.last().lamports
    }
}

/// The ledger after a bootstrap of the pool `a` by the program `program_id`
/// over the ledger `s`, or the error it fails with.
pub open spec fn bootstrap(s: Seq<AccountModel>, program_id: Seq<u8>, a: InitializeAMM) -> Result<
    Seq<AccountModel>,
    AmmError,
> {
    match derived_authority(program_id, a.amm_data@, authority_tag_spec()) {
        None => Err(AmmError::DerivationExhausted),
        Some((authority, bump)) => {
            let payer = lookup(s, a.source_account@);
            let plan = planned_accounts(s, a, authority);
            if holds(s, a.amm_data@) {
                Err(AmmError::AlreadyInitialized)
            } else if !(payer matches Some(w) && w.state is Wallet) || plan is None
                || total_lamports(plan->0) > payer->0.lamports {
                Err(AmmError::AccountCreationFailed)
            } else if program_address(
                signer_seeds(a.amm_data@, authority_tag_spec(), bump),
                program_id,
            ) != Some(authority) {
                Err(AmmError::MintAuthorityMismatch)
            } else {
                Ok(
                    s.update(
                        index_of(s, a.source_account@),
                        AccountModel {
                            key: a.source_account@,
                            lamports: (payer->0.lamports - total_lamports(plan->0)) as u64,
                            state: StateModel::Wallet,
                        },
                    ) + plan->0,
                )
            }
        },
    }
}

/// Adding an account at a free address keeps the addresses distinct.
pub proof fn lemma_push_fresh(w: Seq<AccountModel>, x: AccountModel)
    requires
        unique_keys(w),
        !holds(w, x.key),
    ensures
        unique_keys(w.push(x)),
{
    assert forall|i: int, j: int|
        0 <= i < w.len() + 1 && 0 <= j < w.len() + 1 && i != j implies w.push(x)[i].key != w.push(
            x,
        )[j].key by {
        if i == w.len() {
            assert(w[j].key != x.key);
        } else if j == w.len() {
            assert(w[i].key != x.key);
        }
    }
}

/// The account at `key` among the ledger's accounts `v` and the new ones `p`.
fn find_account(v: &Vec<LedgerAccount>, p: &Vec<LedgerAccount>, key: &[u8; 32]) -> (r: Option<
    LedgerAccount,
>)
    requires
        unique_keys(accounts_view(v@) + accounts_view(p@)),
    ensures
        match lookup(accounts_view(v@) + accounts_view(p@), key@) {
            Some(x) => r matches Some(y) && y@ == x,
            None => r is None,
        },
{
    let ghost w = accounts_view(v@) + accounts_view(p@);
    match position(v, key) {
        Some(i) => {
            proof {
                assert(w[i as int] == v@[i as int]@);
                lemma_lookup_at(w, i as int);
            }
            Some(v[i])
        },
        None => match position(p, key) {
            Some(j) => {
                proof {
                    assert(w[v@.len() + j] == p@[j as int]@);
                    lemma_lookup_at(w, v@.len() + j);
                }
                Some(p[j])
            },
            None => {
                assert(!holds(w, key@)) by {
                    if holds(w, key@) {
                        let k = choose|k: int| 0 <= k < w.len() && w[k].key == key@;
                        if k < v@.len() {
                            assert(accounts_view(v@)[k] == w[k]);
                        } else {
                            assert(accounts_view(p@)[k - v@.len()] == w[k]);
                        }
                    }
                }
                None
            },
        },
    }
}

/// Creates `x` among the new accounts `p` if its address is free.
fn create_account(v: &Vec<LedgerAccount>, p: &mut Vec<LedgerAccount>, x: LedgerAccount) -> (ok: bool)
    requires
        unique_keys(accounts_view(v@) + accounts_view(old(p)@)),
    ensures
        unique_keys(accounts_view(v@) + accounts_view(final(p)@)),
        match create_fresh(accounts_view(v@), accounts_view(old(p)@), x@) {
            Some(q) => ok && accounts_view(final(p)@) == q,
            None => !ok && final(p)@ == old(p)@,
        },
{
    match find_account(v, p, &x.key) {
        Some(_) => false,
        None => {
            proof {
                lemma_push_fresh(accounts_view(v@) + accounts_view(p@), x@);
            }
            p.push(x);
            assert(accounts_view(p@) =~= accounts_view(old(p)@).push(x@));
            assert(accounts_view(v@) + accounts_view(p@) =~= (accounts_view(v@) + accounts_view(
                old(p)@,
            )).push(x@));
            true
        },
    }
}

/// Provisions the reserve vault at `vault` for `mint` among the new accounts
/// `p`: reused when it fits, created when absent.
fn reserve_vault(
    v: &Vec<LedgerAccount>,
    p: &mut Vec<LedgerAccount>,
    vault: &[u8; 32],
    mint: &[u8; 32],
    authority: &[u8; 32],
    rent: u64,
) -> (ok: bool)
    requires
        unique_keys(accounts_view(v@) + accounts_view(old(p)@)),
        rent == rent_exempt_minimum(TOKEN_ACCOUNT_SPACE),
    ensures
        unique_keys(accounts_view(v@) + accounts_view(final(p)@)),
        match provision_reserve(accounts_view(v@), accounts_view(old(p)@), vault@, mint@, authority@) {
            Some(q) => ok && accounts_view(final(p)@) == q,
            None => !ok,
        },
{
    match find_account(v, p, mint) {
        Some(m) => match m.state {
            AccountState::Mint(_) => {},
            _ => return false,
        },
        None => return false,
    }
    match find_account(v, p, vault) {
        Some(existing) => match existing.state {
            AccountState::Token(t) => crate::authority::same_address(&t.mint, mint)
                && crate::authority::same_address(&t.owner, authority),
            _ => false,
        },
        None => {
            let x = LedgerAccount {
                key: *vault,
                lamports: rent,
                state: AccountState::Token(TokenState { mint: *mint, owner: *authority, amount: 0 }),
            };
            create_account(v, p, x)
        },
    }
}

/// Lays out the accounts a bootstrap creates over the ledger's accounts `v`.
fn plan_accounts(v: &Vec<LedgerAccount>, a: &InitializeAMM, authority: &[u8; 32]) -> (r: Option<
    Vec<LedgerAccount>,
>)
    requires
        unique_keys(accounts_view(v@)),
    ensures
        match planned_accounts(accounts_view(v@), *a, authority@) {
            Some(q) => r matches Some(x) && accounts_view(x@) == q && unique_keys(
                accounts_view(v@) + accounts_view(x@),
            ),
            None => r is None,
        },
{
    let ghost s = accounts_view(v@);
    let record_rent = rent_exempt(POOL_RECORD_SPACE);
    let mint_rent = rent_exempt(MINT_SPACE);
    let token_rent = rent_exempt(TOKEN_ACCOUNT_SPACE);
    let vault_a = match associated_token_address(authority, &a.token_a_mint) {
        Some(k) => k,
        None => return None,
    };
    let vault_b = match associated_token_address(authority, &a.token_b_mint) {
        Some(k) => k,
        None => return None,
    };
    let fee_vault = match associated_token_address(authority, &a.pool_mint) {
        Some(k) => k,
        None => return None,
    };
    let receipt = match associated_token_address(&a.source_account, &a.pool_mint) {
        Some(k) => k,
        None => return None,
    };
    let record = LedgerAccount {
        key: a.amm_data,
        lamports: record_rent,
        state: AccountState::Pool(
            AmmData {
                is_initialized: true,
                token_a_account: vault_a,
                token_b_account: vault_b,
                pool_mint: a.pool_mint,
                token_a_mint: a.token_a_mint,
                token_b_mint: a.token_b_mint,
                pool_fee_account: fee_vault,
            },
        ),
    };
    let mint = LedgerAccount {
        key: a.pool_mint,
        lamports: mint_rent,
        state: AccountState::Mint(
            MintState { mint_authority: *authority, decimals: POOL_MINT_DECIMALS, supply: 1 },
        ),
    };
    let fee = LedgerAccount {
        key: fee_vault,
        lamports: token_rent,
        state: AccountState::Token(TokenState { mint: a.pool_mint, owner: *authority, amount: 0 }),
    };
    let receipt_account = LedgerAccount {
        key: receipt,
        lamports: token_rent,
        state: AccountState::Token(
            TokenState { mint: a.pool_mint, owner: a.source_account, amount: 1 },
        ),
    };
    let mut p: Vec<LedgerAccount> = Vec::new();
    assert(accounts_view(p@) =~= Seq::<AccountModel>::empty());
    assert(s + accounts_view(p@) =~= s);
    if !create_account(v, &mut p, record) {
        return None;
    }
    if !create_account(v, &mut p, mint) {
        return None;
    }
    if !reserve_vault(v, &mut p, &vault_a, &a.token_a_mint, authority, token_rent) {
        return None;
    }
    if !reserve_vault(v, &mut p, &vault_b, &a.token_b_mint, authority, token_rent) {
        return None;
    }
    if !create_account(v, &mut p, fee) {
        return None;
    }
    if !create_account(v, &mut p, receipt_account) {
        return None;
    }
    Some(p)
}

/// The lamports that the accounts `p` hold; `None` when the sum exceeds `u64`.
fn total_cost(p: &Vec<LedgerAccount>) -> (r: Option<u64>)
    ensures
        match r {
            Some(c) => c == total_lamports(accounts_view(p@)),
            None => total_lamports(accounts_view(p@)) > u64::MAX,
        },
{
    let mut sum: u64 = 0;
    let mut i: usize = 0;
    while i < p.len()
        invariant
            0 <= i <= p@.len(),
            sum == total_lamports(accounts_view(p@.subrange(0, i as int))),
        decreases p@.len() - i,
    {
        let ghost before = accounts_view(p@.subrange(0, i as int));
        let ghost after = accounts_view(p@.subrange(0, i + 1));
        assert(after.drop_last() =~= before);
        assert(after.last() == p@[i as int]@);
        assert(total_lamports(after) == total_lamports(before) + p@[i as int].lamports);
        assert(accounts_view(p@).subrange(0, i + 1) =~= after);
        match sum.checked_add(p[i].lamports) {
            Some(t) => sum = t,
            None => {
                proof {
                    lemma_total_grows(accounts_view(p@), i + 1);
                }
                return None;
            },
        }
        i = i + 1;
    }
    assert(p@.subrange(0, p@.len() as int) =~= p@);
    Some(sum)
}

/// The lamports of a prefix never exceed those of the whole list.
pub proof fn lemma_total_grows(p: Seq<AccountModel>, n: int)
    requires
        0 <= n <= p.len(),
    ensures
        total_lamports(p.subrange(0, n)) <= total_lamports(p),
    decreases p.len() - n,
{
    if n < p.len() {
        lemma_total_grows(p, n + 1);
        assert(p.subrange(0, n + 1).drop_last() =~= p.subrange(0, n));
    } else {
        assert(p.subrange(0, n) =~= p);
    }
}

/// Bootstraps the pool `accounts.amm_data` for the program `program_id` as one
/// all-or-nothing step: derives the pool's authority, creates the pool record,
/// the liquidity mint under that authority, the reserve and fee vaults in its
/// custody and the depositor's liquidity account, issues one liquidity unit to
/// the depositor under the derivation proof, and charges the depositor for the
/// new accounts. On failure the ledger is left exactly as it was.
pub fn initialize(ledger: &mut Ledger, program_id: &[u8; 32], accounts: &InitializeAMM) -> (r: Result<
    (),
    AmmError,
>)
    requires
        old(ledger).wf(),
    ensures
        final(ledger).wf(),
        match bootstrap(old(ledger)@, program_id@, *accounts) {
            Ok(t) => r is Ok && final(ledger)@ == t,
            Err(e) => r == Err::<(), AmmError>(e) && final(ledger)@ == old(ledger)@,
        },
        r != Err::<(), AmmError>(AmmError::MintAuthorityMismatch),
{
    let ghost s = ledger@;
    let tag = authority_tag();
    let (authority, proof) = match derive_authority(program_id, &accounts.amm_data, tag.as_slice()) {
        Ok(found) => found,
        Err(e) => return Err(e),
    };
    match position(&ledger.accounts, &accounts.amm_data) {
        Some(i) => {
            proof {
                lemma_lookup_at(s, i as int);
            }
            return Err(AmmError::AlreadyInitialized);
        },
        None => {},
    }
    let payer_index = match position(&ledger.accounts, &accounts.source_account) {
        Some(i) => i,
        None => return Err(AmmError::AccountCreationFailed),
    };
    proof {
        lemma_lookup_at(s, payer_index as int);
    }
    let payer = ledger.accounts[payer_index];
    match payer.state {
        AccountState::Wallet => {},
        _ => return Err(AmmError::AccountCreationFailed),
    }
    let mut created = match plan_accounts(&ledger.accounts, accounts, &authority) {
        Some(p) => p,
        None => return Err(AmmError::AccountCreationFailed),
    };
    let cost = match total_cost(&created) {
        Some(c) => c,
        None => return Err(AmmError::AccountCreationFailed),
    };
    if cost > payer.lamports {
        return Err(AmmError::AccountCreationFailed);
    }
    if !proof.reproduces(program_id, &authority) {
        return Err(AmmError::MintAuthorityMismatch);
    }
    let ghost planned = accounts_view(created@);
    let charged = LedgerAccount {
        key: payer.key,
        lamports: payer.lamports - cost,
        state: AccountState::Wallet,
    };
    ledger.accounts.set(payer_index, charged);
    ledger.accounts.append(&mut created);
    proof {
        let u = s.update(payer_index as int, charged@);
        assert(ledger@ =~= u + planned);
        assert(forall|k: int| 0 <= k < s.len() ==> #[trigger] u[k].key == s[k].key);
        assert(unique_keys(u + planned)) by {
            assert forall|i: int, j: int|
                0 <= i < (u + planned).len() && 0 <= j < (u + planned).len() && i != j implies (u
                    + planned)[i].key != (u + planned)[j].key by {
                if i < s.len() && j < s.len() {
                    assert((s + planned)[i].key == (u + planned)[i].key);
                    assert((s + planned)[j].key == (u + planned)[j].key);
                } else if i < s.len() {
                    assert((s + planned)[i].key == (u + planned)[i].key);
                    assert((s + planned)[j] == (u + planned)[j]);
                } else if j < s.len() {
                    assert((s + planned)[j].key == (u + planned)[j].key);
                    assert((s + planned)[i] == (u + planned)[i]);
                } else {
                    assert((s + planned)[i] == (u + planned)[i]);
                    assert((s + planned)[j] == (u + planned)[j]);
                }
            }
        }
    }
    Ok(())
}

/// The authority address derived for the pool `identity`; empty when none is.
pub open spec fn pool_authority(program_id: Seq<u8>, identity: Seq<u8>) -> Seq<u8> {
    match derived_authority(program_id, identity, authority_tag_spec()) {
        Some((x, _)) => x,
        None => Seq::empty(),
    }
}

/// `p` is the start of `q`.
pub open spec fn extends(q: Seq<AccountModel>, p: Seq<AccountModel>) -> bool {
    p.len() <= q.len() && forall|i: int| 0 <= i < p.len() ==> q[i] == p[i]
}

/// Creating an account at a free address puts it there and keeps the
/// addresses distinct.
pub proof fn lemma_create_fresh(s: Seq<AccountModel>, p: Seq<AccountModel>, x: AccountModel)
    requires
        unique_keys(s + p),
        create_fresh(s, p, x) is Some,
    ensures
        create_fresh(s, p, x)->0 == p.push(x),
        extends(p.push(x), p),
        unique_keys(s + p.push(x)),
        lookup(s + p.push(x), x.key) == Some(x),
{
    assert(s + p.push(x) =~= (s + p).push(x));
    lemma_push_fresh(s + p, x);
    lemma_lookup_at(s + p.push(x), (s + p).len() as int);
}

/// Provisioning a reserve vault leaves at its address a token account for
/// the mint in the authority's custody, and keeps the addresses distinct.
pub proof fn lemma_provision_reserve(
    s: Seq<AccountModel>,
    p: Seq<AccountModel>,
    vault: Seq<u8>,
    mint: Seq<u8>,
    authority: Seq<u8>,
)
    requires
        unique_keys(s + p),
        provision_reserve(s, p, vault, mint, authority) is Some,
    ensures
        ({
            let q = provision_reserve(s, p, vault, mint, authority)->0;
            &&& extends(q, p)
            &&& unique_keys(s + q)
            &&& lookup(s + q, vault) matches Some(v) && v.state matches StateModel::Token(t) && t.mint
                == mint && t.owner == authority
        }),
{
    if !holds(s + p, vault) {
        lemma_create_fresh(s, p, token_model(vault, mint, authority, 0));
    }
}

/// What lives at an address stays there while accounts are added after it.
pub proof fn lemma_kept(s: Seq<AccountModel>, p: Seq<AccountModel>, q: Seq<AccountModel>, key: Seq<u8>)
    requires
        unique_keys(s + q),
        extends(q, p),
        lookup(s + p, key) is Some,
    ensures
        lookup(s + q, key) == lookup(s + p, key),
{
    let i = index_of(s + p, key);
    assert((s + q)[i] == (s + p)[i]);
    lemma_lookup_at(s + q, i);
}

/// Charging the payer changes balances only: every account keeps its
/// address and contents.
pub proof fn lemma_charged(s: Seq<AccountModel>, plan: Seq<AccountModel>, i: int, y: AccountModel, key: Seq<u8>)
    requires
        unique_keys(s + plan),
        0 <= i < s.len(),
        y.key == s[i].key,
        y.state == s[i].state,
        lookup(s + plan, key) is Some,
    ensures
        lookup(s.update(i, y) + plan, key) matches Some(z) && z.key == key && z.state == lookup(
            s + plan,
            key,
        )->0.state,
{
    let w = s + plan;
    let t = s.update(i, y) + plan;
    let k = index_of(w, key);
    assert(forall|j: int| 0 <= j < t.len() ==> #[trigger] t[j].key == w[j].key);
    assert(t[k].state == w[k].state);
    assert(unique_keys(t));
    lemma_lookup_at(t, k);
}

/// After a successful bootstrap the pool record stands initialized, the
/// liquidity mint and the reserve and fee vaults answer to the derived
/// authority, and the depositor's liquidity account holds the one unit issued.
pub proof fn bootstrap_sets_up_pool(s: Seq<AccountModel>, program_id: Seq<u8>, a: InitializeAMM)
    requires
        unique_keys(s),
        bootstrap(s, program_id, a) is Ok,
    ensures
        ({
            let t = bootstrap(s, program_id, a)->Ok_0;
            let authority = pool_authority(program_id, a.amm_data@);
            &&& derived_authority(program_id, a.amm_data@, authority_tag_spec()) is Some
            &&& vaults_addressable(a, authority)
            &&& lookup(t, a.amm_data@) matches Some(r) && r.state == StateModel::Pool(
                pool_record(a, authority),
            )
            &&& lookup(t, a.pool_mint@) matches Some(m) && m.state matches StateModel::Mint(mm)
                && mm.mint_authority == authority && mm.decimals == POOL_MINT_DECIMALS && mm.supply
                == 1
            &&& lookup(t, vault_key(authority, a.token_a_mint@)) matches Some(v)
                && v.state matches StateModel::Token(tk) && tk.owner == authority && tk.mint
                == a.token_a_mint@
            &&& lookup(t, vault_key(authority, a.token_b_mint@)) matches Some(v)
                && v.state matches StateModel::Token(tk) && tk.owner == authority && tk.mint
                == a.token_b_mint@
            &&& lookup(t, vault_key(authority, a.pool_mint@)) matches Some(v)
                && v.state matches StateModel::Token(tk) && tk.owner == authority && tk.mint
                == a.pool_mint@
            &&& lookup(t, vault_key(a.source_account@, a.pool_mint@)) matches Some(v)
                && v.state matches StateModel::Token(tk) && tk.owner == a.source_account@ && tk.mint
                == a.pool_mint@ && tk.amount == 1
        }),
{
    let (authority, bump) = derived_authority(program_id, a.amm_data@, authority_tag_spec())->0;
    let e: Seq<AccountModel> = Seq::empty();
    assert(s + e =~= s);
    let record = AccountModel {
        key: a.amm_data@,
        lamports: rent_exempt_minimum(POOL_RECORD_SPACE),
        state: StateModel::Pool(pool_record(a, authority)),
    };
    let mint = AccountModel {
        key: a.pool_mint@,
        lamports: rent_exempt_minimum(MINT_SPACE),
        state: StateModel::Mint(
            MintModel { mint_authority: authority, decimals: POOL_MINT_DECIMALS, supply: 1 },
        ),
    };
    let va = vault_key(authority, a.token_a_mint@);
    let vb = vault_key(authority, a.token_b_mint@);
    let vf = vault_key(authority, a.pool_mint@);
    let vd = vault_key(a.source_account@, a.pool_mint@);
    let fee = token_model(vf, a.pool_mint@, authority, 0);
    let receipt = token_model(vd, a.pool_mint@, a.source_account@, 1);
    lemma_create_fresh(s, e, record);
    let with_record = e.push(record);
    lemma_create_fresh(s, with_record, mint);
    let with_mint = with_record.push(mint);
    lemma_provision_reserve(s, with_mint, va, a.token_a_mint@, authority);
    let with_vault_a = provision_reserve(s, with_mint, va, a.token_a_mint@, authority)->0;
    lemma_provision_reserve(s, with_vault_a, vb, a.token_b_mint@, authority);
    let with_vault_b = provision_reserve(s, with_vault_a, vb, a.token_b_mint@, authority)->0;
    lemma_create_fresh(s, with_vault_b, fee);
    let with_fee = with_vault_b.push(fee);
    lemma_create_fresh(s, with_fee, receipt);
    let created = with_fee.push(receipt);
    assert(planned_accounts(s, a, authority) == Some(created));
    lemma_kept(s, with_record, created, a.amm_data@);
    lemma_kept(s, with_mint, created, a.pool_mint@);
    lemma_kept(s, with_vault_a, created, va);
    lemma_kept(s, with_vault_b, created, vb);
    lemma_kept(s, with_fee, created, vf);
    let payer = lookup(s, a.source_account@)->0;
    let i = index_of(s, a.source_account@);
    let y = AccountModel {
        key: a.source_account@,
        lamports: (payer.lamports - total_lamports(created)) as u64,
        state: StateModel::Wallet,
    };
    lemma_charged(s, created, i, y, a.amm_data@);
    lemma_charged(s, created, i, y, a.pool_mint@);
    lemma_charged(s, created, i, y, va);
    lemma_charged(s, created, i, y, vb);
    lemma_charged(s, created, i, y, vf);
    lemma_charged(s, created, i, y, vd);
}

/// Bootstrapping an identity a second time is refused: once a bootstrap has
/// succeeded, any later bootstrap of the same identity fails with
/// `AlreadyInitialized`, and a failed bootstrap changes nothing.
pub proof fn bootstrap_twice_is_refused(
    s: Seq<AccountModel>,
    program_id: Seq<u8>,
    a: InitializeAMM,
    again: InitializeAMM,
)
    requires
        unique_keys(s),
        bootstrap(s, program_id, a) is Ok,
        again.amm_data@ == a.amm_data@,
    ensures
        bootstrap(bootstrap(s, program_id, a)->Ok_0, program_id, again) == Err::<
            Seq<AccountModel>,
            AmmError,
        >(AmmError::AlreadyInitialized),
{
    bootstrap_sets_up_pool(s, program_id, a);
}

/// A depositor who cannot pay for every account the bootstrap would create
/// gets `AccountCreationFailed`; the ledger is then left as it was, with no
/// record at the pool's identity.
pub proof fn underfunded_bootstrap_fails(s: Seq<AccountModel>, program_id: Seq<u8>, a: InitializeAMM)
    requires
        derived_authority(program_id, a.amm_data@, authority_tag_spec()) is Some,
        !holds(s, a.amm_data@),
        lookup(s, a.source_account@) matches Some(w) && w.state is Wallet,
        planned_accounts(s, a, pool_authority(program_id, a.amm_data@)) matches Some(p)
            && total_lamports(p) > lookup(s, a.source_account@)->0.lamports,
    ensures
        bootstrap(s, program_id, a) == Err::<Seq<AccountModel>, AmmError>(
            AmmError::AccountCreationFailed,
        ),
{
}

/// A bootstrap succeeds when the authority derives, no record stands at the
/// pool's identity, the depositor is a wallet, every account to create has an
/// address that is free (the reserve mints exist and a vault already there
/// fits), and the depositor covers the rent of all of them.
pub proof fn funded_bootstrap_succeeds(s: Seq<AccountModel>, program_id: Seq<u8>, a: InitializeAMM)
    requires
        derived_authority(program_id, a.amm_data@, authority_tag_spec()) is Some,
        !holds(s, a.amm_data@),
        lookup(s, a.source_account@) matches Some(w) && w.state is Wallet,
        planned_accounts(s, a, pool_authority(program_id, a.amm_data@)) matches Some(p)
            && total_lamports(p) <= lookup(s, a.source_account@)->0.lamports,
    ensures
        bootstrap(s, program_id, a) is Ok,
{
    let seeds = authority_seeds(a.amm_data@, authority_tag_spec());
    lemma_search_found(seeds, program_id, 255);
    let bump = match derived_authority(program_id, a.amm_data@, authority_tag_spec()) {
        Some((_, b)) => b,
        None => 0u8,
    };
    assert(seeds.push(seq![bump]) =~= signer_seeds(a.amm_data@, authority_tag_spec(), bump));
}

} // verus!
