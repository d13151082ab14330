//! The capacity of drives.
use vstd::prelude::*;

verus! {

pub const LOW_SPACE_PERCENT: u64 = 10;

#[derive(Debug, Clone, Copy, PartialEq, Eq, Structural)]
pub struct DriveCapacity {
    pub total: u64,
    pub available: u64,
}

/// Less than a tenth of the drive is free.
pub open spec fn low_space(total: int, available: int) -> bool {
    total > 0 && available * 100 < total * LOW_SPACE_PERCENT
}

impl DriveCapacity {
    pub fn is_low_space(self) -> (low: bool)
        ensures
            low == low_space(self.total as int, self.available as int),
    {
        is_low_space(self.total, self.available)
    }
}

pub fn is_low_space(total: u64, available: u64) -> (low: bool)
    ensures
        low == low_space(total as int, available as int),
{
    let free: u64 = if available < total {
        available
    } else {
        total
    };
    let percent: u128 = LOW_SPACE_PERCENT as u128;
    assert(total as u128 * percent <= u64::MAX as u128 * 10) by (nonlinear_arith)
        requires
            total <= u64::MAX,
            percent == 10,
    ;
    total != 0 && (free as u128) * 100 < (total as u128) * percent
}

/// With more space free, a drive that was not low does not become low.
pub proof fn law_more_space_is_not_low(total: int, available: int, more: int)
    requires
        !low_space(total, available),
        available <= more,
    ensures
        !low_space(total, more),
{
}

/// A drive is low on space exactly where less than a tenth of it is available; both forms of the
/// question have the same answer, and a drive without any space is not low on it.
pub proof fn law_low_space_is_less_than_a_tenth(
    total: u64,
    available: u64,
    low: bool,
    capacity: DriveCapacity,
    same: bool,
)
    requires
        capacity.total == total && capacity.available == available,
        call_ensures(is_low_space, (total, available), low),
        call_ensures(DriveCapacity::is_low_space, (capacity,), same),
    ensures
        low <==> total > 0 && 10 * available < total,
        same == low,
{
}

} // verus!
