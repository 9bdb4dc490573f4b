//! Range checks for the configuration values the caller passes in.

use vstd::prelude::*;

use crate::CoreError;

verus! {

/// Exclusive upper bound on the retention window size.
pub const MAX_PERIODS: usize = 741;

/// Whether a retention window size is inside the deployment policy's range.
pub open spec fn periods_in_range(n: usize) -> bool {
    1 <= n < 741
}

/// Checks the retention window size `n` against its documented range
/// `0 < n < 741`; a value outside it is a fatal configuration error.
pub fn validate_periods(n: usize) -> (r: Result<(), CoreError>)
    ensures
        r == (if periods_in_range(n) {
            Ok::<(), CoreError>(())
        } else {
            Err::<(), CoreError>(CoreError::ConfigOutOfRange)
        }),
{
    if 1 <= n && n < MAX_PERIODS {
        Ok(())
    } else {
        Err(CoreError::ConfigOutOfRange)
    }
}

} // verus!
