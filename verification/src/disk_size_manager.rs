//! Byte-quota accounting for exports.
use vstd::prelude::*;

verus! {

/// The value of a `u64` read as an `i64` with two's-complement wrap-around,
/// which is what an `as i64` cast yields.
pub open spec fn wrap_to_i64(x: u64) -> int {
    if x <= i64::MAX { x as int } else { x as int - 0x1_0000_0000_0000_0000int }
}

/// Tracks how many bytes an export occupies against a fixed maximum.
pub struct DiskSizeManager {
    current_bytes: i64,
    max_bytes: u64,
}

/// Outcome of applying a size change.
pub struct DiskSizeResult {
    pub success: bool,
    pub current_total: i64,
}

impl DiskSizeManager {
    /// The running total of bytes (never negative).
    pub closed spec fn spec_current(&self) -> int {
        self.current_bytes as int
    }

    /// The configured maximum.
    pub closed spec fn spec_max(&self) -> u64 {
        self.max_bytes
    }

    /// The running total is never negative.
    pub closed spec fn wf(&self) -> bool {
        self.current_bytes >= 0
    }

    pub fn new(max_bytes: u64) -> (m: Self)
        ensures
            m.wf(),
            m.spec_current() == 0,
            m.spec_max() == max_bytes,
    {
        DiskSizeManager { current_bytes: 0, max_bytes }
    }

    /// Adds `delta_bytes` to the running total, clamping the result at zero.
    pub fn apply_delta(&mut self, delta_bytes: i64) -> (r: DiskSizeResult)
        requires
            old(self).wf(),
            i64::MIN <= old(self).spec_current() + delta_bytes <= i64::MAX,
        ensures
            final(self).wf(),
            final(self).spec_max() == old(self).spec_max(),
            final(self).spec_current() == if old(self).spec_current() + delta_bytes < 0 {
                0
            } else {
                old(self).spec_current() + delta_bytes
            },
            r.success,
            r.current_total == final(self).spec_current(),
    {
        let new_total = self.current_bytes + delta_bytes;
        self.current_bytes = if new_total < 0 { 0 } else { new_total };
        DiskSizeResult { success: true, current_total: self.current_bytes }
    }

    /// True when the running total exceeds the maximum.
    pub fn is_over_quota(&self) -> (b: bool)
        requires
            self.wf(),
        ensures
            b == (self.spec_current() > 0 && self.spec_current() > self.spec_max()),
    {
        self.current_bytes > 0 && (self.current_bytes as u64) > self.max_bytes
    }

    pub fn current_bytes(&self) -> (r: i64)
        ensures
            r == self.spec_current(),
    {
        self.current_bytes
    }

    pub fn max_bytes(&self) -> (r: u64)
        ensures
            r == self.spec_max(),
    {
        self.max_bytes
    }

    /// Bytes left before the maximum is reached, never negative.  The maximum
    /// is read as a signed 64-bit value, as the stored total is.
    pub fn remaining_bytes(&self) -> (r: i64)
        requires
            self.wf(),
            i64::MIN <= wrap_to_i64(self.spec_max()) - self.spec_current(),
        ensures
            r == if wrap_to_i64(self.spec_max()) - self.spec_current() < 0 {
                0
            } else {
                wrap_to_i64(self.spec_max()) - self.spec_current()
            },
    {
        let max_signed: i64 = if self.max_bytes <= 0x7fff_ffff_ffff_ffffu64 {
            self.max_bytes as i64
        } else {
            ((self.max_bytes - 0x8000_0000_0000_0000u64) as i64) + i64::MIN
        };
        let diff = max_signed - self.current_bytes;
        if diff < 0 { 0 } else { diff }
    }
}

} // verus!
