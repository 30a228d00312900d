//! SPIR-V word decoding.
//!
//! A SPIR-V module is a sequence of 32-bit words.  The bytes are read as
//! little-endian words; if the first word is the byte-swapped magic number
//! the whole module was produced on the other endianness and every word is
//! swapped.  A length that is not a multiple of four, or a first word that
//! is not the magic number either way, is rejected.

use vstd::prelude::*;

verus! {

/// The SPIR-V magic number, first word of every valid module.
pub const SPIRV_MAGIC: u32 = 0x0723_0203;

/// The little-endian 32-bit word starting at byte `4 * w`.
pub open spec fn spec_le_word(bytes: Seq<u8>, w: int) -> u32 {
    (bytes[4 * w] + 256 * bytes[4 * w + 1] + 65536 * bytes[4 * w + 2] + 16777216 * bytes[4 * w
        + 3]) as u32
}

/// The word with its four bytes reversed.
pub open spec fn spec_swap_u32(w: u32) -> u32 {
    ((w % 256) * 16777216 + ((w / 256) % 256) * 65536 + ((w / 65536) % 256) * 256 + w
        / 16777216) as u32
}

/// The words of the module as stored, before any endianness correction.
pub open spec fn spec_raw_words(bytes: Seq<u8>) -> Seq<u32> {
    Seq::new((bytes.len() / 4) as nat, |i: int| spec_le_word(bytes, i))
}

/// The words of the module in host order: the stored words, each
/// byte-swapped when the first stored word is the swapped magic number.
pub open spec fn spec_spv_words(bytes: Seq<u8>) -> Seq<u32> {
    let raw = spec_raw_words(bytes);
    if raw.len() > 0 && raw[0] == spec_swap_u32(SPIRV_MAGIC) {
        raw.map(|i: int, w: u32| spec_swap_u32(w))
    } else {
        raw
    }
}

/// Why a byte sequence is not a SPIR-V module.
#[derive(Debug, Clone, Copy, PartialEq, Eq, Structural)]
pub enum SpvError {
    /// The input length is not divisible by four.
    LengthNotWordAligned,
    /// The input is empty or does not start with the magic number in
    /// either byte order.
    MissingMagicNumber,
}

/// Reverse the four bytes of a word.
pub fn swap_u32(w: u32) -> (r: u32)
    ensures
        r == spec_swap_u32(w),
{
    (w % 256) * 16777216 + ((w / 256) % 256) * 65536 + ((w / 65536) % 256) * 256 + w / 16777216
}

/// Decode SPIR-V words from bytes of either endianness.  On success the
/// result holds one word per four bytes, in host order, and starts with
/// the magic number.
pub fn read_spv(bytes: &[u8]) -> (r: Result<Vec<u32>, SpvError>)
    ensures
        match r {
            Ok(words) => bytes@.len() % 4 == 0 && bytes@.len() > 0 && words@ =~= spec_spv_words(
                bytes@,
            ) && words@[0] == SPIRV_MAGIC,
            Err(e) => match e {
                SpvError::LengthNotWordAligned => bytes@.len() % 4 != 0,
                SpvError::MissingMagicNumber => bytes@.len() % 4 == 0 && (bytes@.len() == 0
                    || spec_spv_words(bytes@)[0] != SPIRV_MAGIC),
            },
        },
{
    if bytes.len() % 4 != 0 {
        return Err(SpvError::LengthNotWordAligned);
    }
    if bytes.len() == 0 {
        return Err(SpvError::MissingMagicNumber);
    }
    let word_count = bytes.len() / 4;
    let mut raw: Vec<u32> = Vec::new();
    let mut i: usize = 0;
    while i < word_count
        invariant
            i <= word_count,
            word_count == bytes@.len() / 4,
            bytes@.len() % 4 == 0,
            bytes@.len() <= usize::MAX,
            raw@.len() == i,
            forall|j: int| 0 <= j < i ==> #[trigger] raw@[j] == spec_le_word(bytes@, j),
        decreases word_count - i,
    {
        proof {
            assert(bytes@.len() == 4 * (bytes@.len() / 4) + bytes@.len() % 4);
            assert(4 * i + 3 < bytes@.len());
        }
        let b0 = bytes[4 * i] as u32;
        let b1 = bytes[4 * i + 1] as u32;
        let b2 = bytes[4 * i + 2] as u32;
        let b3 = bytes[4 * i + 3] as u32;
        raw.push(b0 + 256 * b1 + 65536 * b2 + 16777216 * b3);
        i += 1;
    }
    proof {
        assert(raw@ =~= spec_raw_words(bytes@));
    }
    if raw[0] == swap_u32(SPIRV_MAGIC) {
        let mut words: Vec<u32> = Vec::new();
        let mut j: usize = 0;
        while j < raw.len()
            invariant
                j <= raw@.len(),
                raw@ == spec_raw_words(bytes@),
                words@.len() == j,
                forall|m: int| 0 <= m < j ==> #[trigger] words@[m] == spec_swap_u32(raw@[m]),
            decreases raw@.len() - j,
        {
            let swapped = swap_u32(raw[j]);
            words.push(swapped);
            j += 1;
        }
        proof {
            assert(words@ =~= spec_spv_words(bytes@));
        }
        if words[0] == SPIRV_MAGIC {
            Ok(words)
        } else {
            Err(SpvError::MissingMagicNumber)
        }
    } else {
        if raw[0] == SPIRV_MAGIC {
            proof {
                assert(raw@ =~= spec_spv_words(bytes@));
            }
            Ok(raw)
        } else {
            Err(SpvError::MissingMagicNumber)
        }
    }
}

} // verus!
