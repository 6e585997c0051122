use amm_anchor::authority::{authority_tag, derive_authority};
use amm_anchor::{
    build_fees, initialize, AccountState, AmmError, FeesInput, InitializeAMM, Ledger,
    LedgerAccount, MintState, TokenState,
};
use anchor_lang::prelude::Pubkey;

const RECORD_RENT: u64 = 2_289_840;
const MINT_RENT: u64 = 1_461_600;
const TOKEN_RENT: u64 = 2_039_280;
const FULL_COST: u64 = RECORD_RENT + MINT_RENT + 4 * TOKEN_RENT;

fn key(text: &[u8]) -> [u8; 32] {
    let mut k = [0u8; 32];
    k[..text.len()].copy_from_slice(text);
    k
}

fn program() -> [u8; 32] {
    key(b"amm-program")
}

fn accounts() -> InitializeAMM {
    InitializeAMM {
        amm_data: key(b"pool-42"),
        source_account: key(b"depositor"),
        pool_mint: key(b"liquidity-mint"),
        token_a_mint: key(b"mint-a"),
        token_b_mint: key(b"mint-b"),
    }
}

fn wallet(k: [u8; 32], lamports: u64) -> LedgerAccount {
    LedgerAccount { key: k, lamports, state: AccountState::Wallet }
}

fn mint(k: [u8; 32]) -> LedgerAccount {
    LedgerAccount {
        key: k,
        lamports: MINT_RENT,
        state: AccountState::Mint(MintState { mint_authority: key(b"issuer"), decimals: 6, supply: 500 }),
    }
}

fn ledger_with(payer_lamports: u64) -> Ledger {
    let a = accounts();
    let mut ledger = Ledger::new();
    ledger.open_account(wallet(a.source_account, payer_lamports)).unwrap();
    ledger.open_account(mint(a.token_a_mint)).unwrap();
    ledger.open_account(mint(a.token_b_mint)).unwrap();
    ledger
}

fn expected_authority(identity: &[u8; 32]) -> [u8; 32] {
    let program = Pubkey::new_from_array(program());
    let tag = authority_tag();
    Pubkey::find_program_address(&[identity.as_slice(), tag.as_slice()], &program).0.to_bytes()
}

fn ata(wallet: &[u8; 32], mint: &[u8; 32]) -> [u8; 32] {
    anchor_spl::associated_token::get_associated_token_address(
        &Pubkey::new_from_array(*wallet),
        &Pubkey::new_from_array(*mint),
    )
    .to_bytes()
}

fn token_at(ledger: &Ledger, k: &[u8; 32]) -> TokenState {
    match ledger.get(k).expect("account exists").state {
        AccountState::Token(t) => t,
        other => panic!("not a token account: {:?}", other),
    }
}

fn snapshot(ledger: &Ledger) -> Vec<LedgerAccount> {
    ledger.accounts.clone()
}

#[test]
fn authority_tag_reads_amm_authority() {
    assert_eq!(authority_tag(), b"amm-authority".to_vec());
}

#[test]
fn derive_is_deterministic_on_one_identity() {
    let id = key(b"pool-42");
    let tag = authority_tag();
    let (a1, first_proof) = derive_authority(&program(), &id, &tag).unwrap();
    let (a2, second_proof) = derive_authority(&program(), &id, &tag).unwrap();
    assert_eq!(a1, a2);
    assert_eq!(first_proof.identity, second_proof.identity);
    assert_eq!(first_proof.tag, second_proof.tag);
    assert_eq!(first_proof.bump, second_proof.bump);
}

#[test]
fn derive_matches_the_runtime_search() {
    let id = key(b"pool-42");
    let tag = authority_tag();
    let (authority, proof) = derive_authority(&program(), &id, &tag).unwrap();
    let program_key = Pubkey::new_from_array(program());
    let (expected, bump) =
        Pubkey::find_program_address(&[id.as_slice(), tag.as_slice()], &program_key);
    assert_eq!(authority, expected.to_bytes());
    assert_eq!(proof.bump, bump);
    assert_eq!(proof.identity, id);
    assert_eq!(proof.tag, b"amm-authority".to_vec());
    assert!(proof.reproduces(&program(), &authority));
}

#[test]
fn derive_gives_distinct_authorities_to_distinct_identities() {
    let tag = authority_tag();
    let (a1, _) = derive_authority(&program(), &key(b"pool-42"), &tag).unwrap();
    let (a2, _) = derive_authority(&program(), &key(b"pool-43"), &tag).unwrap();
    assert_ne!(a1, a2);
}

#[test]
fn derive_with_another_tag_gives_another_authority() {
    let id = key(b"pool-42");
    let (a1, _) = derive_authority(&program(), &id, &authority_tag()).unwrap();
    let (a2, _) = derive_authority(&program(), &id, b"other-domain").unwrap();
    assert_ne!(a1, a2);
}

#[test]
fn derive_with_overlong_tag_is_exhausted() {
    let tag = [7u8; 33];
    let r = derive_authority(&program(), &key(b"pool-42"), &tag);
    assert!(matches!(r, Err(AmmError::DerivationExhausted)));
}

#[test]
fn proof_does_not_reproduce_another_address() {
    let (_, proof) = derive_authority(&program(), &key(b"pool-42"), &authority_tag()).unwrap();
    assert!(!proof.reproduces(&program(), &key(b"somebody")));
}

#[test]
fn bootstrap_pool_42_end_to_end() {
    let a = accounts();
    let mut ledger = ledger_with(FULL_COST);
    assert_eq!(initialize(&mut ledger, &program(), &a), Ok(()));
    let authority = expected_authority(&a.amm_data);

    let record = match ledger.get(&a.amm_data).unwrap().state {
        AccountState::Pool(d) => d,
        other => panic!("no pool record: {:?}", other),
    };
    assert!(record.is_initialized);
    assert_eq!(record.token_a_account, ata(&authority, &a.token_a_mint));
    assert_eq!(record.token_b_account, ata(&authority, &a.token_b_mint));
    assert_eq!(record.pool_fee_account, ata(&authority, &a.pool_mint));
    assert_eq!(record.pool_mint, a.pool_mint);
    assert_eq!(record.token_a_mint, a.token_a_mint);
    assert_eq!(record.token_b_mint, a.token_b_mint);

    match ledger.get(&a.pool_mint).unwrap().state {
        AccountState::Mint(m) => {
            assert_eq!(m.mint_authority, authority);
            assert_eq!(m.decimals, 9);
            assert_eq!(m.supply, 1);
        }
        other => panic!("no liquidity mint: {:?}", other),
    }

    let receipt = token_at(&ledger, &ata(&a.source_account, &a.pool_mint));
    assert_eq!(receipt.amount, 1);
    assert_eq!(receipt.owner, a.source_account);
    assert_eq!(receipt.mint, a.pool_mint);

    for (vault, m) in [(record.token_a_account, a.token_a_mint), (record.token_b_account, a.token_b_mint)] {
        let t = token_at(&ledger, &vault);
        assert_eq!(t.amount, 0);
        assert_eq!(t.owner, authority);
        assert_eq!(t.mint, m);
    }
    let fee = token_at(&ledger, &record.pool_fee_account);
    assert_eq!(fee.owner, authority);
    assert_eq!(fee.mint, a.pool_mint);
    assert_eq!(fee.amount, 0);

    assert_eq!(ledger.get(&a.source_account).unwrap().lamports, 0);
    assert_eq!(ledger.len(), 9);
}

#[test]
fn bootstrap_charges_rent_of_each_new_account() {
    let a = accounts();
    let mut ledger = ledger_with(20_000_000);
    initialize(&mut ledger, &program(), &a).unwrap();
    assert_eq!(FULL_COST, 11_908_560);
    assert_eq!(ledger.get(&a.source_account).unwrap().lamports, 20_000_000 - FULL_COST);
    assert_eq!(ledger.get(&a.amm_data).unwrap().lamports, RECORD_RENT);
    assert_eq!(ledger.get(&a.pool_mint).unwrap().lamports, MINT_RENT);
}

#[test]
fn second_bootstrap_is_already_initialized_and_changes_nothing() {
    let a = accounts();
    let mut ledger = ledger_with(3 * FULL_COST);
    initialize(&mut ledger, &program(), &a).unwrap();
    let before = snapshot(&ledger);
    let again = InitializeAMM { pool_mint: key(b"second-mint"), ..a };
    assert_eq!(initialize(&mut ledger, &program(), &again), Err(AmmError::AlreadyInitialized));
    assert_eq!(snapshot(&ledger), before);
    assert_eq!(initialize(&mut ledger, &program(), &a), Err(AmmError::AlreadyInitialized));
    assert_eq!(snapshot(&ledger), before);
}

#[test]
fn underfunded_bootstrap_rolls_back() {
    let a = accounts();
    let mut ledger = ledger_with(FULL_COST - 1);
    let before = snapshot(&ledger);
    assert_eq!(initialize(&mut ledger, &program(), &a), Err(AmmError::AccountCreationFailed));
    assert_eq!(snapshot(&ledger), before);
    assert!(ledger.get(&a.amm_data).is_none());
    assert!(ledger.get(&a.pool_mint).is_none());
}

#[test]
fn bootstrap_without_payer_fails() {
    let a = accounts();
    let mut ledger = Ledger::new();
    ledger.open_account(mint(a.token_a_mint)).unwrap();
    ledger.open_account(mint(a.token_b_mint)).unwrap();
    assert_eq!(initialize(&mut ledger, &program(), &a), Err(AmmError::AccountCreationFailed));
    assert_eq!(ledger.len(), 2);
}

#[test]
fn bootstrap_with_a_non_wallet_payer_fails() {
    let a = accounts();
    let mut ledger = Ledger::new();
    ledger.open_account(mint(a.source_account)).unwrap();
    ledger.open_account(mint(a.token_a_mint)).unwrap();
    ledger.open_account(mint(a.token_b_mint)).unwrap();
    assert_eq!(initialize(&mut ledger, &program(), &a), Err(AmmError::AccountCreationFailed));
}

#[test]
fn bootstrap_with_taken_mint_address_fails() {
    let a = accounts();
    let mut ledger = ledger_with(FULL_COST);
    ledger.open_account(wallet(a.pool_mint, 1)).unwrap();
    let before = snapshot(&ledger);
    assert_eq!(initialize(&mut ledger, &program(), &a), Err(AmmError::AccountCreationFailed));
    assert_eq!(snapshot(&ledger), before);
}

#[test]
fn bootstrap_with_missing_reserve_mint_fails() {
    let a = accounts();
    let mut ledger = Ledger::new();
    ledger.open_account(wallet(a.source_account, FULL_COST)).unwrap();
    ledger.open_account(mint(a.token_a_mint)).unwrap();
    assert_eq!(initialize(&mut ledger, &program(), &a), Err(AmmError::AccountCreationFailed));
    assert_eq!(ledger.len(), 2);
}

#[test]
fn bootstrap_reuses_a_fitting_reserve_vault() {
    let a = accounts();
    let authority = expected_authority(&a.amm_data);
    let vault_a = ata(&authority, &a.token_a_mint);
    let mut ledger = ledger_with(FULL_COST - TOKEN_RENT);
    ledger
        .open_account(LedgerAccount {
            key: vault_a,
            lamports: TOKEN_RENT,
            state: AccountState::Token(TokenState { mint: a.token_a_mint, owner: authority, amount: 70 }),
        })
        .unwrap();
    assert_eq!(initialize(&mut ledger, &program(), &a), Ok(()));
    assert_eq!(token_at(&ledger, &vault_a).amount, 70);
    assert_eq!(ledger.get(&a.source_account).unwrap().lamports, 0);
    assert_eq!(ledger.len(), 9);
}

#[test]
fn bootstrap_with_foreign_reserve_vault_fails() {
    let a = accounts();
    let authority = expected_authority(&a.amm_data);
    let vault_b = ata(&authority, &a.token_b_mint);
    let mut ledger = ledger_with(FULL_COST);
    ledger
        .open_account(LedgerAccount {
            key: vault_b,
            lamports: TOKEN_RENT,
            state: AccountState::Token(TokenState {
                mint: a.token_b_mint,
                owner: key(b"intruder"),
                amount: 0,
            }),
        })
        .unwrap();
    let before = snapshot(&ledger);
    assert_eq!(initialize(&mut ledger, &program(), &a), Err(AmmError::AccountCreationFailed));
    assert_eq!(snapshot(&ledger), before);
}

#[test]
fn bootstrap_with_one_reserve_mint_shares_the_vault() {
    let a = InitializeAMM { token_b_mint: key(b"mint-a"), ..accounts() };
    let mut ledger = Ledger::new();
    ledger.open_account(wallet(a.source_account, FULL_COST)).unwrap();
    ledger.open_account(mint(a.token_a_mint)).unwrap();
    assert_eq!(initialize(&mut ledger, &program(), &a), Ok(()));
    assert_eq!(ledger.get(&a.source_account).unwrap().lamports, TOKEN_RENT);
    assert_eq!(ledger.len(), 7);
}

#[test]
fn open_account_refuses_a_taken_address() {
    let mut ledger = Ledger::new();
    assert_eq!(ledger.open_account(wallet(key(b"w"), 5)), Ok(()));
    assert_eq!(ledger.open_account(wallet(key(b"w"), 9)), Err(AmmError::AccountCreationFailed));
    assert_eq!(ledger.len(), 1);
    assert_eq!(ledger.get(&key(b"w")).unwrap().lamports, 5);
}

#[test]
fn build_fees_copies_every_field() {
    let input = FeesInput {
        trade_fee_numerator: 25,
        trade_fee_denominator: 10_000,
        owner_trade_fee_numerator: 5,
        owner_trade_fee_denominator: 10_000,
        owner_withdraw_fee_numerator: 0,
        owner_withdraw_fee_denominator: 1,
        host_fee_numerator: 20,
        host_fee_denominator: 100,
    };
    assert_eq!(build_fees(&input), Ok(input));
}
