//! The random seed of the current block, set once per block by an inherent.

use vstd::prelude::*;

verus! {

/// What a runtime using the random seed provides.
pub trait Trait {
}

/// The identifier of the random seed inherent.
pub const RANDOM_SEED_INHERENT_IDENTIFIER: [u8; 8] = [98u8, 108u8, 99u8, 107u8, 115u8, 101u8, 101u8, 100u8];

/// Why the random seed inherent could not be checked.
#[derive(Clone, Debug, PartialEq, Eq)]
pub enum RandomSeedInherentError {
    Other(String),
}

/// The storage of the random seed module: the seed of the current block.
#[derive(Clone, Copy, Debug)]
pub struct RandomSeed {
    pub seed: [u8; 32],
}

impl RandomSeed {
    /// The all-zero seed, before any was set.
    pub fn new() -> (r: RandomSeed)
        ensures
            forall|i: int| 0 <= i < 32 ==> r.seed[i] == 0,
    {
        RandomSeed { seed: [0u8; 32] }
    }

    /// Sets the seed of the current block.
    pub fn set(&mut self, seed: [u8; 32])
        ensures
            final(self).seed == seed,
    {
        self.seed = seed;
    }

    /// The seed of the current block.
    pub fn get(&self) -> (r: [u8; 32])
        ensures
            r == self.seed,
    {
        self.seed
    }

    /// The seed of the current block.
    pub fn seed(&self) -> (r: [u8; 32])
        ensures
            r == self.seed,
    {
        self.seed
    }
}

/// The string that SCALE decoding reads from the start of `input` (a compact
/// length, then that many bytes of UTF-8), if it reads one.
pub uninterp spec fn scale_string_prefix(input: Seq<u8>) -> Option<Seq<char>>;

/// Decodes a string from the start of `input` with `String::decode` of
/// `parity-scale-codec` (reached through `sp_core`), ignoring what follows it.
/// The contract claims only that the outcome is a function of the bytes.
#[verifier::external_body]
fn decode_string_prefix(input: &[u8]) -> (r: Option<String>)
    ensures
        match r {
            Some(s) => scale_string_prefix(input@) == Some(s@),
            None => scale_string_prefix(input@) is None,
        },
{
    let mut rest = input;
    <String as sp_core::Decode>::decode(&mut rest).ok()
}

impl RandomSeedInherentError {
    /// The error that `data` carries when `id` is the random seed inherent's
    /// identifier: a variant index (zero, for the only variant) followed by
    /// the message. None for another identifier or bytes that do not decode.
    pub fn try_from(id: &[u8; 8], data: &[u8]) -> (r: Option<RandomSeedInherentError>)
        ensures
            id@ != RANDOM_SEED_INHERENT_IDENTIFIER@ ==> r is None,
            id@ == RANDOM_SEED_INHERENT_IDENTIFIER@ ==> match r {
                Some(RandomSeedInherentError::Other(s)) => data@.len() > 0 && data@[0] == 0
                    && scale_string_prefix(data@.drop_first()) == Some(s@),
                None => !(data@.len() > 0 && data@[0] == 0) || scale_string_prefix(data@.drop_first()) is None,
            },
    {
        if !is_random_seed_inherent(id) {
            return None;
        }
        if data.len() == 0 || data[0] != 0 {
            return None;
        }
        let rest = vstd::slice::slice_subrange(data, 1, data.len());
        proof {
            assert(rest@ =~= data@.drop_first());
        }
        match decode_string_prefix(rest) {
            Some(s) => Some(RandomSeedInherentError::Other(s)),
            None => None,
        }
    }
}

/// Whether `id` identifies the random seed inherent.
pub fn is_random_seed_inherent(id: &[u8; 8]) -> (r: bool)
    ensures
        r == (id@ == RANDOM_SEED_INHERENT_IDENTIFIER@),
{
    let mut i: usize = 0;
    while i < 8
        invariant
            i <= 8,
            forall|j: int| 0 <= j < i ==> id@[j] == RANDOM_SEED_INHERENT_IDENTIFIER@[j],
        decreases 8 - i,
    {
        if id[i] != RANDOM_SEED_INHERENT_IDENTIFIER[i] {
            return false;
        }
        i = i + 1;
    }
    proof {
        assert(id@ =~= RANDOM_SEED_INHERENT_IDENTIFIER@);
    }
    true
}

} // verus!
