//! The persistent identity: a single 32-byte seed stored on disk. Reading and
//! writing the file is the application's; deciding what a stored file holds is
//! here.
use vstd::prelude::*;
use crate::identity::Identity;

verus! {

/// The seed that the contents of a seed file hold: its first 32 bytes, when
/// there are at least 32.
pub open spec fn stored_seed(bytes: Seq<u8>) -> Option<Seq<u8>> {
    if bytes.len() >= 32 {
        Some(bytes.subrange(0, 32))
    } else {
        None
    }
}

/// What is written for an identity, its 32-byte seed, holds that same seed
/// when it is read back.
pub proof fn lemma_seed_file_roundtrip(seed: Seq<u8>)
    requires
        seed.len() == 32,
    ensures
        stored_seed(seed) == Some(seed),
{
    assert(seed.subrange(0, 32) =~= seed);
}

/// The identity that the contents of a seed file hold: its first 32 bytes,
/// when there are at least 32. A shorter file holds none, and a new identity
/// is then generated and stored.
pub fn stored_identity(bytes: &[u8]) -> (r: Option<Identity>)
    ensures
        match r {
            Some(id) => stored_seed(bytes@) == Some(id@),
            None => stored_seed(bytes@) is None,
        },
{
    if bytes.len() < 32 {
        return None;
    }
    let mut seed = [0u8; 32];
    let mut i: usize = 0;
    while i < 32
        invariant
            i <= 32,
            bytes@.len() >= 32,
            forall|j: int| 0 <= j < i ==> seed@[j] == bytes@[j],
        decreases 32 - i,
    {
        seed[i] = bytes[i];
        i += 1;
    }
    assert(seed@ =~= bytes@.subrange(0, 32));
    Some(Identity::from_seed(seed))
}

} // verus!
