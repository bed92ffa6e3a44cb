//! Portable checksums.

use seahash::SeaHasher;
use std::hash::Hasher;
use vstd::prelude::*;

verus! {

/// `seahash::SeaHasher`.
#[verifier::external_type_specification]
#[verifier::external_body]
pub struct ExSeaHasher(SeaHasher);

/// The SeaHash of some bytes under the default seeds. It is the same on every machine.
pub uninterp spec fn sea_hash(bytes: Seq<u8>) -> u64;

/// What a hasher has taken in so far, told by what it gives in the end: the hash once it has taken in
/// some more bytes.
pub uninterp spec fn hash_with(hasher: SeaHasher, more: Seq<u8>) -> u64;

/// Returns a hasher built using the `seahash` library appropriate for creating portable checksums.
///
/// `SeaHasher::new`: the hasher has taken in nothing and has the default seeds, so that it gives the
/// SeaHash of whatever it takes in.
#[verifier::external_body]
pub fn checksum_hasher() -> (hasher: SeaHasher)
    ensures
        forall|bytes: Seq<u8>| #[trigger] hash_with(hasher, bytes) == sea_hash(bytes),
{
    SeaHasher::new()
}

/// `SeaHasher`'s `write`: the hasher takes in some bytes. It makes no difference in how many pieces
/// bytes are taken in.
#[verifier::external_body]
fn take_in(hasher: &mut SeaHasher, bytes: &[u8])
    ensures
        forall|more: Seq<u8>| #[trigger]
            hash_with(*final(hasher), more) == hash_with(*old(hasher), bytes@ + more),
{
    hasher.write(bytes);
}

/// `SeaHasher`'s `finish`: the hash of what the hasher has taken in.
#[verifier::external_body]
fn hash_so_far(hasher: &SeaHasher) -> (hash: u64)
    ensures
        hash == hash_with(*hasher, Seq::empty()),
{
    hasher.finish()
}

/// The checksum of some bytes, given in pieces. It depends on the bytes alone, not on how they are
/// cut into pieces.
pub fn checksum_bytes(pieces: &Vec<Vec<u8>>) -> (checksum: u64)
    ensures
        checksum == sea_hash(pieces@.map_values(|piece: Vec<u8>| piece@).flatten()),
{
    let mut hasher = checksum_hasher();
    let ghost all = pieces@.map_values(|piece: Vec<u8>| piece@);
    let mut i: usize = 0;
    while i < pieces.len()
        invariant
            i <= pieces@.len(),
            all == pieces@.map_values(|piece: Vec<u8>| piece@),
            forall|more: Seq<u8>| #[trigger]
                hash_with(hasher, more) == sea_hash(all.take(i as int).flatten() + more),
        decreases pieces@.len() - i,
    {
        let piece = &pieces[i];
        proof {
            assert(all.take(i + 1) =~= all.take(i as int).push(piece@));
            all.take(i as int).lemma_flatten_push(piece@);
            assert forall|more: Seq<u8>| #[trigger]
                sea_hash(all.take(i + 1).flatten() + more) == sea_hash(
                    all.take(i as int).flatten() + (piece@ + more),
                ) by {
                assert(all.take(i + 1).flatten() + more =~= all.take(i as int).flatten() + (piece@
                    + more));
            }
        }
        take_in(&mut hasher, piece.as_slice());
        i += 1;
    }
    assert(all.take(all.len() as int) =~= all);
    hash_so_far(&hasher)
}

} // verus!
