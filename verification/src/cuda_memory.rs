//! What a trim of the device's memory pool achieved.
use crate::memory;
use vstd::prelude::*;

verus! {

/// Memory figures around a trim; `None` where the driver does not tell.
#[derive(Debug, Clone, Copy, PartialEq, Eq)]
pub struct CudaMemoryPoolTrimReport {
    pub gpu_used_before_bytes: u64,
    pub gpu_used_after_bytes: u64,
    pub gpu_total_bytes: u64,
    pub pool_reserved_before_bytes: Option<u64>,
    pub pool_reserved_after_bytes: Option<u64>,
    pub pool_used_before_bytes: Option<u64>,
    pub pool_used_after_bytes: Option<u64>,
}

impl CudaMemoryPoolTrimReport {
    /// Device bytes that are free again; 0 where use grew.
    pub fn gpu_reclaimed_bytes(&self) -> (result: u64)
        ensures
            result == memory::less(
                self.gpu_used_before_bytes as int,
                self.gpu_used_after_bytes as int,
            ),
    {
        self.gpu_used_before_bytes.saturating_sub(self.gpu_used_after_bytes)
    }

    /// Bytes that the pool gave back; `None` where a figure is missing.
    pub fn pool_reserved_reclaimed_bytes(&self) -> (result: Option<u64>)
        ensures
            match (self.pool_reserved_before_bytes, self.pool_reserved_after_bytes) {
                (Some(before), Some(after)) => result matches Some(bytes) && bytes == memory::less(
                    before as int,
                    after as int,
                ),
                _ => result is None,
            },
    {
        match (self.pool_reserved_before_bytes, self.pool_reserved_after_bytes) {
            (Some(before), Some(after)) => Some(before.saturating_sub(after)),
            _ => None,
        }
    }
}

} // verus!
