//! A cheap check of a chunk against what the shape scan saw of it.
//!
//! Folder names can coincide across different content. A large mismatch
//! between the estimate and what was found at claim time is a hint that
//! something else stands there. It never keeps a claim from completing.

use vstd::prelude::*;

verus! {

/// A chunk is flagged if its file count or its byte total differs from the
/// estimate by at least this factor, in either direction.
pub const MISMATCH_FACTOR: u64 = 2;

/// An estimate held against what was found.
#[derive(Debug, Clone, Copy, PartialEq, Eq, Structural)]
pub struct StatSanityCheck {
    pub estimated_audio_file_count: u64,
    pub estimated_audio_bytes: u64,
    pub actual_audio_file_count: u64,
    pub actual_audio_bytes: u64,
    /// Whether the count or the bytes differ by at least the factor.
    pub mismatch: bool,
}

/// Whether two numbers differ by at least the factor. Nothing and nothing do
/// not differ; nothing and something always do.
pub open spec fn differs(a: int, b: int) -> bool {
    &&& a != 0 || b != 0
    &&& (a >= MISMATCH_FACTOR * b || b >= MISMATCH_FACTOR * a)
}

/// Whether two numbers differ by at least the factor.
fn ratio_exceeds(estimated: u64, actual: u64) -> (r: bool)
    ensures
        r == differs(estimated as int, actual as int),
{
    if estimated == 0 && actual == 0 {
        return false;
    }
    let e: u128 = estimated as u128;
    let a: u128 = actual as u128;
    a >= 2 * e || e >= 2 * a
}

/// Holds an estimate against what was found.
pub fn check_chunk_stats(
    estimated_audio_file_count: u64,
    estimated_audio_bytes: u64,
    actual_audio_file_count: u64,
    actual_audio_bytes: u64,
) -> (r: StatSanityCheck)
    ensures
        r.estimated_audio_file_count == estimated_audio_file_count,
        r.estimated_audio_bytes == estimated_audio_bytes,
        r.actual_audio_file_count == actual_audio_file_count,
        r.actual_audio_bytes == actual_audio_bytes,
        r.mismatch == (differs(estimated_audio_file_count as int, actual_audio_file_count as int)
            || differs(estimated_audio_bytes as int, actual_audio_bytes as int)),
{
    let mismatch: bool = ratio_exceeds(estimated_audio_file_count, actual_audio_file_count)
        || ratio_exceeds(estimated_audio_bytes, actual_audio_bytes);
    StatSanityCheck {
        estimated_audio_file_count,
        estimated_audio_bytes,
        actual_audio_file_count,
        actual_audio_bytes,
        mismatch,
    }
}

/// Two numbers that are not both nothing differ exactly if one of them is at least
/// twice the other.
pub proof fn law_mismatch_starts_at_twice(a: int, b: int)
    requires
        0 <= a <= b,
    ensures
        differs(a, b) == (b >= a + a && b > 0),
        differs(b, a) == (b >= a + a && b > 0),
{
}

/// The check looks in both directions alike: too much is as suspicious as too
/// little.
pub proof fn law_mismatch_is_symmetric(a: int, b: int)
    ensures
        differs(a, b) == differs(b, a),
{
}

/// A number is never a mismatch of itself, and always one of nothing unless it
/// is nothing too.
pub proof fn law_exact_match_is_clean(a: int)
    requires
        a >= 0,
    ensures
        !differs(a, a),
        differs(0, a) == (a != 0),
{
}

} // verus!
