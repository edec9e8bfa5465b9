//! The seeded generator that a game draws its chances from.
//!
//! The library never looks for entropy itself: whoever makes a game hands
//! over the seed bytes. The generator that a seed makes is a function of
//! the seed alone. Nothing is known of a draw but its type, so the
//! simulation is proved for every value that the generator may hand out.

use rand::StdRng;
use vstd::prelude::*;

verus! {

/// Number of bytes in a seed.
pub const SEED_BYTES: usize = 32;

/// The generator of the `rand` crate. Its state is hidden.
#[verifier::external_type_specification]
#[verifier::external_body]
pub struct ExStdRng(rand::StdRng);

/// The generator that `rand::StdRng` makes from a seed of words.
pub uninterp spec fn seeded(words: Seq<usize>) -> StdRng;

/// Why the host could not fill a buffer with random bytes, or why the bytes
/// do not make a seed.
#[derive(Clone, Copy, Debug, PartialEq, Eq, Structural)]
pub enum RNGSourceError {
    /// The buffer does not have the length asked for.
    RangeError,
    /// More bytes were asked for than the host hands out at once.
    QuotaError,
    /// Any other failure.
    UnknownError,
}

/// What a status code of the host's entropy source means: zero is success,
/// one a range error, two a quota error, anything else unknown.
pub open spec fn status_meaning(status: usize) -> Result<(), RNGSourceError> {
    if status == 0 {
        Ok(())
    } else if status == 1 {
        Err(RNGSourceError::RangeError)
    } else if status == 2 {
        Err(RNGSourceError::QuotaError)
    } else {
        Err(RNGSourceError::UnknownError)
    }
}

/// Reads the status code that the host's entropy source answered with.
pub fn fill_status(status: usize) -> (outcome: Result<(), RNGSourceError>)
    ensures
        outcome == status_meaning(status),
{
    match status {
        0 => Ok(()),
        1 => Err(RNGSourceError::RangeError),
        2 => Err(RNGSourceError::QuotaError),
        _ => Err(RNGSourceError::UnknownError),
    }
}

/// Word `i` of a seed: its bytes `4 i .. 4 i + 4`, the first byte lowest.
pub open spec fn seed_word(bytes: Seq<u8>, i: int) -> int {
    bytes[4 * i] + 256 * bytes[4 * i + 1] + 65536 * bytes[4 * i + 2] + 16777216 * bytes[4 * i + 3]
}

/// The words of a seed of `SEED_BYTES` bytes.
pub open spec fn seed_words(bytes: Seq<u8>) -> Seq<usize> {
    Seq::new(8, |i: int| seed_word(bytes, i) as usize)
}

/// Packs the bytes of a seed into words of four bytes each, which fit every
/// machine word.
pub fn pack_seed(bytes: &Vec<u8>) -> (words: Vec<usize>)
    requires
        bytes.len() == SEED_BYTES,
    ensures
        words@ == seed_words(bytes@),
{
    let mut words: Vec<usize> = Vec::new();
    let mut i: usize = 0;
    while i < 8
        invariant
            i <= 8,
            bytes.len() == SEED_BYTES,
            words@.len() == i,
            forall|k: int| 0 <= k < i ==> words@[k] == seed_word(bytes@, k) as usize,
        decreases 8 - i,
    {
        let word: u32 = (bytes[4 * i] as u32) + 256 * (bytes[4 * i + 1] as u32) + 65536 * (bytes[4
            * i + 2] as u32) + 16777216 * (bytes[4 * i + 3] as u32);
        words.push(word as usize);
        i = i + 1;
    }
    assert(words@ =~= seed_words(bytes@));
    words
}

/// Makes the generator of a game from `SEED_BYTES` bytes of entropy. Any
/// other number of bytes is a range error.
pub fn new_rng(seed: &Vec<u8>) -> (made: Result<StdRng, RNGSourceError>)
    ensures
        made is Ok <==> seed.len() == SEED_BYTES,
        made matches Ok(rng) ==> rng == seeded(seed_words(seed@)),
        made matches Err(e) ==> e == RNGSourceError::RangeError,
{
    if seed.len() != SEED_BYTES {
        return Err(RNGSourceError::RangeError);
    }
    let words: Vec<usize> = pack_seed(seed);
    Ok(generator_from_words(&words))
}

/// `rand::SeedableRng::from_seed` of `rand::StdRng`, on a slice of words.
/// It accepts a seed of any length and does not fail. The generator that it
/// returns depends on the words alone; that generator has the name `seeded`,
/// and nothing else is claimed of it.
#[verifier::external_body]
fn generator_from_words(words: &Vec<usize>) -> (rng: StdRng)
    ensures
        rng == seeded(words@),
{
    rand::SeedableRng::from_seed(words.as_slice())
}

/// `rand::Rng::next_u64` of `rand::StdRng`: the next draw. Nothing is
/// claimed of its value.
#[verifier::external_body]
pub(crate) fn next_draw(rng: &mut StdRng) -> (draw: u64) {
    rand::Rng::next_u64(rng)
}

} // verus!
