use vstd::prelude::*;

use solana_program::pubkey::Pubkey;
use solana_program::system_program;

use crate::codec::{le_bytes, lemma_le_bytes_len, lemma_le_round_trip, lemma_pow256_facts, push_le};

verus! {

/// The address, and its bump seed, that the program `program_id` derives
/// from the single seed `seed`; `None` where no bump seed gives an address
/// off the curve.
pub uninterp spec fn program_address_of(seed: Seq<u8>, program_id: Seq<u8>) -> Option<(Seq<u8>, u8)>;

/// Relies on `Pubkey::try_find_program_address` (solana-pubkey): for a list
/// of seeds and a program id it searches the bump seeds and returns the first
/// derived address with its bump, or `None`; the result depends on the seeds
/// and the program id alone.
#[verifier::external_body]
fn find_program_address(seed: &[u8], program_id: &[u8; 32]) -> (r: Option<([u8; 32], u8)>)
    ensures
        match r {
            Some((a, b)) => program_address_of(seed@, program_id@) == Some((a@, b)),
            None => program_address_of(seed@, program_id@) is None,
        },
{
    let program = Pubkey::new_from_array(*program_id);
    Pubkey::try_find_program_address(&[seed], &program).map(|(a, b)| (a.to_bytes(), b))
}

/// The system program's id: the key of 32 zero bytes, written
/// "11111111111111111111111111111111".
pub open spec fn system_program_key() -> Seq<u8> {
    Seq::new(32, |i: int| 0u8)
}

/// Relies on `system_program::check_id` (solana-sdk-ids): true exactly when
/// the key is the system program's id.
#[verifier::external_body]
fn check_system_program(key: &[u8; 32]) -> (r: bool)
    ensures
        r == (key@ == system_program_key()),
{
    system_program::check_id(&Pubkey::new_from_array(*key))
}

/// Whether `key` is the ledger's system program, the only program trusted
/// to move value and create accounts.
pub fn is_system_program(key: &[u8; 32]) -> (r: bool)
    ensures
        r == (key@ == system_program_key()),
{
    check_system_program(key)
}

/// The seed of an invoice's storage address: its id in 16 bytes, most
/// significant first.
pub open spec fn id_seed(id: u128) -> Seq<u8> {
    le_bytes(id as nat, 16).reverse()
}

/// The storage address of invoice `id` under program `program_id`, with
/// its bump seed.
pub open spec fn invoice_address(id: u128, program_id: Seq<u8>) -> Option<(Seq<u8>, u8)> {
    program_address_of(id_seed(id), program_id)
}

/// The seed bytes of invoice `id`.
pub fn id_seed_bytes(id: u128) -> (r: [u8; 16])
    ensures
        r@ == id_seed(id),
{
    let mut le: Vec<u8> = Vec::new();
    push_le(&mut le, id, 16);
    proof {
        lemma_le_bytes_len(id as nat, 16);
    }
    let mut out: [u8; 16] = [0u8; 16];
    let mut i: usize = 0;
    while i < 16
        invariant
            i <= 16,
            le@ == le_bytes(id as nat, 16),
            le@.len() == 16,
            forall|k: int| 0 <= k < i ==> out@[k] == le@[15 - k],
        decreases 16 - i,
    {
        out[i] = le[15 - i];
        i = i + 1;
    }
    assert(out@ =~= id_seed(id));
    out
}

/// Derives the storage address of invoice `id` and its bump seed; `None`
/// where no bump seed gives a valid address.
pub fn derive_invoice_address(id: u128, program_id: &[u8; 32]) -> (r: Option<([u8; 32], u8)>)
    ensures
        match r {
            Some((a, b)) => invoice_address(id, program_id@) == Some((a@, b)),
            None => invoice_address(id, program_id@) is None,
        },
{
    let seed = id_seed_bytes(id);
    find_program_address(seed.as_slice(), program_id)
}

/// Derivation is a function: the same id under the same program always
/// gives the same address and bump seed.
pub proof fn lemma_derivation_deterministic(id1: u128, id2: u128, p1: Seq<u8>, p2: Seq<u8>)
    requires
        id1 == id2,
        p1 == p2,
    ensures
        invoice_address(id1, p1) == invoice_address(id2, p2),
{
}

/// Distinct ids give distinct seeds, so their addresses are derived from
/// distinct inputs.
pub proof fn lemma_distinct_ids_distinct_seeds(id1: u128, id2: u128)
    requires
        id1 != id2,
    ensures
        id_seed(id1) != id_seed(id2),
{
    lemma_pow256_facts();
    lemma_le_round_trip(id1 as nat, 16);
    lemma_le_round_trip(id2 as nat, 16);
    if id_seed(id1) == id_seed(id2) {
        assert(le_bytes(id1 as nat, 16) =~= id_seed(id1).reverse());
        assert(le_bytes(id2 as nat, 16) =~= id_seed(id2).reverse());
    }
}

} // verus!
