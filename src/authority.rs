use crate::error::AmmError;
use vstd::prelude::*;
use vstd::slice::slice_to_vec;

verus! {

/// Domain separator that sets the pool authority apart from every other
/// address the program derives.
/// The tag reads "amm-authority".
pub open spec fn authority_tag_spec() -> Seq<u8> {
    seq![97u8, 109, 109, 45, 97, 117, 116, 104, 111, 114, 105, 116, 121]
}

/// The bytes of the domain separator.
pub fn authority_tag() -> (r: Vec<u8>)
    ensures
        r@ == authority_tag_spec(),
{
    let r: Vec<u8> = vec![97u8, 109, 109, 45, 97, 117, 116, 104, 111, 114, 105, 116, 121];
    assert(r@ =~= authority_tag_spec());
    r
}

/// The program address made of exactly `seeds` (bump byte included) and
/// `program_id`, or `None` when that hash lies on the curve or the seeds are
/// out of bounds.
pub uninterp spec fn program_address(seeds: Seq<Seq<u8>>, program_id: Seq<u8>) -> Option<Seq<u8>>;

/// The search for a program address over `seeds` and `program_id`, trying
/// the bump bytes from `bump` down to 1: the first address found, with its
/// bump byte.
pub open spec fn search_from(seeds: Seq<Seq<u8>>, program_id: Seq<u8>, bump: u8) -> Option<
    (Seq<u8>, u8),
>
    decreases bump,
{
    if bump == 0 {
        None
    } else {
        match program_address(seeds.push(seq![bump]), program_id) {
            Some(a) => Some((a, bump)),
            None => search_from(seeds, program_id, (bump - 1) as u8),
        }
    }
}

/// The canonical program address over `seeds` and `program_id`: the first
/// one found over the bump bytes 255 down to 1, with its bump byte; `None`
/// when none of them gives one.
pub open spec fn program_address_search(seeds: Seq<Seq<u8>>, program_id: Seq<u8>) -> Option<
    (Seq<u8>, u8),
> {
    search_from(seeds, program_id, 255)
}

/// An address that the search finds is the one its seeds and bump byte make.
pub proof fn lemma_search_found(seeds: Seq<Seq<u8>>, program_id: Seq<u8>, bump: u8)
    requires
        search_from(seeds, program_id, bump) is Some,
    ensures
        ({
            let (a, b) = search_from(seeds, program_id, bump)->0;
            program_address(seeds.push(seq![b]), program_id) == Some(a)
        }),
    decreases bump,
{
    if bump != 0 && program_address(seeds.push(seq![bump]), program_id) is None {
        lemma_search_found(seeds, program_id, (bump - 1) as u8);
    }
}

/// Seed list from which a pool's authority is derived.
pub open spec fn authority_seeds(identity: Seq<u8>, tag: Seq<u8>) -> Seq<Seq<u8>> {
    seq![identity, tag]
}

/// Seed list, bump byte appended, that lets the program sign as the authority.
pub open spec fn signer_seeds(identity: Seq<u8>, tag: Seq<u8>, bump: u8) -> Seq<Seq<u8>> {
    seq![identity, tag, seq![bump]]
}

/// What a pool's authority is: its address and the bump byte found for it.
pub open spec fn derived_authority(program_id: Seq<u8>, identity: Seq<u8>, tag: Seq<u8>) -> Option<
    (Seq<u8>, u8),
> {
    program_address_search(authority_seeds(identity, tag), program_id)
}

/// Relies on `Pubkey::try_find_program_address`: it tries the bump bytes 255
/// down to 1 and returns the first address that `Pubkey::create_program_address`
/// makes of the seeds with that bump byte appended; `None` when none does.
#[verifier::external_body]
fn find_program_address(identity: &[u8; 32], tag: &[u8], program_id: &[u8; 32]) -> (r: Option<
    ([u8; 32], u8),
>)
    ensures
        match program_address_search(seq![identity@, tag@], program_id@) {
            Some((a, b)) => r matches Some((x, y)) && x@ == a && y == b,
            None => r is None,
        },
{
    let program = anchor_lang::prelude::Pubkey::new_from_array(*program_id);
    anchor_lang::prelude::Pubkey::try_find_program_address(&[identity.as_slice(), tag], &program)
        .map(|(address, bump)| (address.to_bytes(), bump))
}

/// Relies on `Pubkey::create_program_address`: the address made of the seeds
/// with the bump byte appended, or an error when it lies on the curve.
#[verifier::external_body]
fn create_program_address(identity: &[u8; 32], tag: &[u8], bump: u8, program_id: &[u8; 32]) -> (r:
    Option<[u8; 32]>)
    ensures
        match program_address(seq![identity@, tag@, seq![bump]], program_id@) {
            Some(a) => r is Some && r->0@ == a,
            None => r is None,
        },
{
    let program = anchor_lang::prelude::Pubkey::new_from_array(*program_id);
    let seeds: [&[u8]; 3] = [identity.as_slice(), tag, &[bump]];
    anchor_lang::prelude::Pubkey::create_program_address(&seeds, &program).ok().map(|a| a.to_bytes())
}

/// What reproduces a pool's authority and lets the program sign as it: the
/// seeds and the bump byte.
#[derive(Clone, Debug)]
pub struct DerivationProof {
    pub identity: [u8; 32],
    pub tag: Vec<u8>,
    pub bump: u8,
}

impl DerivationProof {
    /// The signer seeds that this proof presents.
    pub open spec fn seeds(&self) -> Seq<Seq<u8>> {
        signer_seeds(self.identity@, self.tag@, self.bump)
    }

    /// Whether the proof reproduces `authority` for `program_id`.
    pub fn reproduces(&self, program_id: &[u8; 32], authority: &[u8; 32]) -> (r: bool)
        ensures
            r == (program_address(self.seeds(), program_id@) == Some(authority@)),
    {
        match create_program_address(&self.identity, self.tag.as_slice(), self.bump, program_id) {
            Some(a) => same_address(&a, authority),
            None => false,
        }
    }
}

/// Whether two addresses are equal, byte for byte.
pub fn same_address(a: &[u8; 32], b: &[u8; 32]) -> (r: bool)
    ensures
        r == (a@ == b@),
{
    let mut i: usize = 0;
    while i < 32
        invariant
            0 <= i <= 32,
            a@.len() == 32,
            b@.len() == 32,
            forall|j: int| 0 <= j < i ==> a@[j] == b@[j],
        decreases 32 - i,
    {
        if a[i] != b[i] {
            return false;
        }
        i = i + 1;
    }
    assert(a@ =~= b@);
    true
}

/// Derives the authority of the pool named `identity` under the domain `tag`,
/// for the program `program_id`: its address and the proof to sign as it.
pub fn derive_authority(program_id: &[u8; 32], identity: &[u8; 32], tag: &[u8]) -> (r: Result<
    ([u8; 32], DerivationProof),
    AmmError,
>)
    ensures
        match derived_authority(program_id@, identity@, tag@) {
            Some((a, b)) => r matches Ok((x, p)) && x@ == a && p.identity@ == identity@ && p.tag@
                == tag@ && p.bump == b,
            None => r == Err::<([u8; 32], DerivationProof), AmmError>(AmmError::DerivationExhausted),
        },
        r matches Ok((x, p)) ==> program_address(p.seeds(), program_id@) == Some(x@),
{
    match find_program_address(identity, tag, program_id) {
        Some((address, bump)) => {
            proof {
                lemma_search_found(seq![identity@, tag@], program_id@, 255);
                assert(seq![identity@, tag@].push(seq![bump]) =~= signer_seeds(identity@, tag@, bump));
            }
            let proof = DerivationProof { identity: *identity, tag: slice_to_vec(tag), bump };
            Ok((address, proof))
        },
        None => Err(AmmError::DerivationExhausted),
    }
}

/// The derivation is a function of its inputs: two derivations from the same
/// program, identity and tag give the same authority and bump byte.
pub proof fn derive_is_deterministic(
    program_id: Seq<u8>,
    identity: Seq<u8>,
    tag: Seq<u8>,
    other_program_id: Seq<u8>,
    other_identity: Seq<u8>,
    other_tag: Seq<u8>,
)
    requires
        program_id == other_program_id,
        identity == other_identity,
        tag == other_tag,
    ensures
        derived_authority(program_id, identity, tag) == derived_authority(
            other_program_id,
            other_identity,
            other_tag,
        ),
{
}

/// Under one tag, the signer seeds of two distinct identities differ, whatever
/// bump bytes were found for them: no proof made for one pool signs for another.
pub proof fn distinct_identities_give_distinct_seeds(
    identity: Seq<u8>,
    other_identity: Seq<u8>,
    tag: Seq<u8>,
    bump: u8,
    other_bump: u8,
)
    requires
        identity != other_identity,
    ensures
        signer_seeds(identity, tag, bump) != signer_seeds(other_identity, tag, other_bump),
{
    assert(signer_seeds(identity, tag, bump)[0] == identity);
    assert(signer_seeds(other_identity, tag, other_bump)[0] == other_identity);
}

} // verus!
