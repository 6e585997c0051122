use crate::error::AmmError;
use crate::pool::{AmmData, PoolModel};
use vstd::prelude::*;

verus! {

/// A mint: who may issue its units, its precision and its supply.
#[derive(Clone, Copy, Debug, PartialEq, Eq)]
pub struct MintState {
    pub mint_authority: [u8; 32],
    pub decimals: u8,
    pub supply: u64,
}

/// A token account: the mint it holds units of, who has custody, and how many
/// units it holds.
#[derive(Clone, Copy, Debug, PartialEq, Eq)]
pub struct TokenState {
    pub mint: [u8; 32],
    pub owner: [u8; 32],
    pub amount: u64,
}

/// What an account holds.
#[derive(Clone, Copy, Debug, PartialEq, Eq)]
pub enum AccountState {
    /// A plain wallet that can pay for new accounts.
    Wallet,
    /// A pool record.
    Pool(AmmData),
    /// A mint.
    Mint(MintState),
    /// A token account.
    Token(TokenState),
}

/// An account of the ledger: its address, its balance and its contents.
#[derive(Clone, Copy, Debug, PartialEq, Eq)]
pub struct LedgerAccount {
    pub key: [u8; 32],
    pub lamports: u64,
    pub state: AccountState,
}

/// Mathematical view of a mint.
pub struct MintModel {
    pub mint_authority: Seq<u8>,
    pub decimals: u8,
    pub supply: u64,
}

/// Mathematical view of a token account.
pub struct TokenModel {
    pub mint: Seq<u8>,
    pub owner: Seq<u8>,
    pub amount: u64,
}

/// Mathematical view of what an account holds.
pub enum StateModel {
    Wallet,
    Pool(PoolModel),
    Mint(MintModel),
    Token(TokenModel),
}

/// Mathematical view of an account.
pub struct AccountModel {
    pub key: Seq<u8>,
    pub lamports: u64,
    pub state: StateModel,
}

impl View for MintState {
    type V = MintModel;

    open spec fn view(&self) -> MintModel {
        MintModel { mint_authority: self.mint_authority@, decimals: self.decimals, supply: self.supply }
    }
}

impl View for TokenState {
    type V = TokenModel;

    open spec fn view(&self) -> TokenModel {
        TokenModel { mint: self.mint@, owner: self.owner@, amount: self.amount }
    }
}

impl View for AccountState {
    type V = StateModel;

    open spec fn view(&self) -> StateModel {
        match self {
            AccountState::Wallet => StateModel::Wallet,
            AccountState::Pool(d) => StateModel::Pool(d@),
            AccountState::Mint(m) => StateModel::Mint(m@),
            AccountState::Token(t) => StateModel::Token(t@),
        }
    }
}

impl View for LedgerAccount {
    type V = AccountModel;

    open spec fn view(&self) -> AccountModel {
        AccountModel { key: self.key@, lamports: self.lamports, state: self.state@ }
    }
}

/// The view of a list of accounts.
pub open spec fn accounts_view(v: Seq<LedgerAccount>) -> Seq<AccountModel> {
    v.map_values(|a: LedgerAccount| a@)
}

/// Whether an account lives at `key`.
pub open spec fn holds(s: Seq<AccountModel>, key: Seq<u8>) -> bool {
    exists|i: int| 0 <= i < s.len() && s[i].key == key
}

/// Where the account at `key` stands in `s`.
pub open spec fn index_of(s: Seq<AccountModel>, key: Seq<u8>) -> int {
    choose|i: int| 0 <= i < s.len() && s[i].key == key
}

/// The account that lives at `key`, if any.
pub open spec fn lookup(s: Seq<AccountModel>, key: Seq<u8>) -> Option<AccountModel> {
    if holds(s, key) {
        Some(s[index_of(s, key)])
    } else {
        None
    }
}

/// No two accounts share an address.
pub open spec fn unique_keys(s: Seq<AccountModel>) -> bool {
    forall|i: int, j: int| 0 <= i < s.len() && 0 <= j < s.len() && i != j ==> s[i].key != s[j].key
}

/// In a ledger of distinct addresses, the account found at an index is the
/// one that lives at its address.
pub proof fn lemma_lookup_at(s: Seq<AccountModel>, i: int)
    requires
        unique_keys(s),
        0 <= i < s.len(),
    ensures
        holds(s, s[i].key),
        index_of(s, s[i].key) == i,
        lookup(s, s[i].key) == Some(s[i]),
{
    assert(holds(s, s[i].key));
}

/// The accounts of a ledger, each at its own address.
pub struct Ledger {
    pub accounts: Vec<LedgerAccount>,
}

impl View for Ledger {
    type V = Seq<AccountModel>;

    open spec fn view(&self) -> Seq<AccountModel> {
        accounts_view(self.accounts@)
    }
}

/// Where the account at `key` stands in `v`, if any.
pub fn position(v: &Vec<LedgerAccount>, key: &[u8; 32]) -> (r: Option<usize>)
    ensures
        match r {
            Some(i) => i < v@.len() && v@[i as int].key@ == key@,
            None => !holds(accounts_view(v@), key@),
        },
{
    let mut i: usize = 0;
    while i < v.len()
        invariant
            0 <= i <= v@.len(),
            forall|j: int| 0 <= j < i ==> v@[j].key@ != key@,
        decreases v@.len() - i,
    {
        if crate::authority::same_address(&v[i].key, key) {
            return Some(i);
        }
        i = i + 1;
    }
    assert(!holds(accounts_view(v@), key@)) by {
        assert forall|j: int| 0 <= j < v@.len() implies accounts_view(v@)[j].key != key@ by {
            assert(accounts_view(v@)[j] == v@[j]@);
        }
    }
    None
}

impl Ledger {
    /// Well-formed: no two accounts share an address.
    pub open spec fn wf(&self) -> bool {
        unique_keys(self@)
    }

    /// An empty ledger.
    pub fn new() -> (r: Ledger)
        ensures
            r@ == Seq::<AccountModel>::empty(),
            r.wf(),
    {
        let r = Ledger { accounts: Vec::new() };
        assert(r@ =~= Seq::<AccountModel>::empty());
        r
    }

    /// The number of accounts.
    pub fn len(&self) -> (r: usize)
        ensures
            r == self@.len(),
    {
        self.accounts.len()
    }

    /// A copy of the account that lives at `key`, if any.
    pub fn get(&self, key: &[u8; 32]) -> (r: Option<LedgerAccount>)
        requires
            self.wf(),
        ensures
            match lookup(self@, key@) {
                Some(a) => r matches Some(x) && x@ == a,
                None => r is None,
            },
    {
        match position(&self.accounts, key) {
            Some(i) => {
                proof {
                    lemma_lookup_at(self@, i as int);
                }
                Some(self.accounts[i])
            },
            None => None,
        }
    }

    /// Adds `account` at its address, which must be free; otherwise fails with
    /// `AccountCreationFailed` and leaves the ledger as it was.
    pub fn open_account(&mut self, account: LedgerAccount) -> (r: Result<(), AmmError>)
        requires
            old(self).wf(),
        ensures
            final(self).wf(),
            holds(old(self)@, account.key@) ==> r == Err::<(), AmmError>(AmmError::AccountCreationFailed)
                && final(self)@ == old(self)@,
            !holds(old(self)@, account.key@) ==> r is Ok && final(self)@ == old(self)@.push(account@),
    {
        match position(&self.accounts, &account.key) {
            Some(i) => {
                proof {
                    lemma_lookup_at(self@, i as int);
                }
                Err(AmmError::AccountCreationFailed)
            },
            None => {
                self.accounts.push(account);
                assert(self@ =~= old(self)@.push(account@));
                Ok(())
            },
        }
    }
}

} // verus!
