//! RFC-1912 serial number lifecycle: the next serial for a dirty
//! reference, and its monotonicity.
use vstd::prelude::*;

verus! {


/// RFC-1912 serial manager: pick the next serial for a reference
/// whose content changed. Adopt the date-based candidate when it is
/// larger than the previous serial; otherwise advance the previous
/// serial by one, wrapping to 1 when the counter is exhausted.
pub open spec fn spec_next_serial(s_prev: u32, s_date: u32) -> u32 {
    if s_date > s_prev {
        s_date
    } else if s_prev == u32::MAX {
        1u32
    } else {
        (s_prev + 1) as u32
    }
}

/// Compute the serial for a dirty reference from its previous serial
/// (0 when none was ever assigned) and the date-based candidate for
/// the current day.
pub fn next_serial(s_prev: u32, s_date: u32) -> (r: u32)
    ensures
        r == spec_next_serial(s_prev, s_date),
{
    if s_date > s_prev {
        s_date
    } else if s_prev == u32::MAX {
        1u32
    } else {
        s_prev + 1
    }
}

/// Serials never decrease, and strictly increase on every dirty pass,
/// except at the defined wrap point of the counter.
pub proof fn lemma_serial_monotonic(s_prev: u32, s_date: u32)
    requires
        s_prev < u32::MAX,
    ensures
        spec_next_serial(s_prev, s_date) > s_prev,
{
}

/// The date-based candidate for a day, in the recommended
/// `YYYYMMDDnn` scheme with `nn = 00`; same-day re-generations advance
/// from it by one through `next_serial`.
pub fn date_candidate(year: u32, month: u32, day: u32) -> (r: u32)
    requires
        year <= 4294,
        1 <= month <= 12,
        1 <= day <= 31,
    ensures
        r == year * 1000000 + month * 10000 + day * 100,
{
    year * 1000000 + month * 10000 + day * 100
}

} // verus!
