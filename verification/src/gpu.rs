//! Scheduler-neutral placement metadata.
use vstd::prelude::*;

use crate::ids::LeaseEpoch;

verus! {

/// Where a session's work runs: worker, GPU device ordinal, model, and the
/// epoch of this placement.
#[derive(Clone, Debug, Eq, PartialEq)]
pub struct GpuLease {
    pub worker_id: String,
    pub device_ordinal: u32,
    pub model_id: String,
    pub epoch: LeaseEpoch,
}

impl GpuLease {
    pub fn new(worker_id: &str, device_ordinal: u32, model_id: &str, epoch: u64) -> (l: Self)
        ensures
            l.worker_id@ == worker_id@,
            l.device_ordinal == device_ordinal,
            l.model_id@ == model_id@,
            l.epoch == LeaseEpoch(epoch),
    {
        GpuLease {
            worker_id: worker_id.to_owned(),
            device_ordinal,
            model_id: model_id.to_owned(),
            epoch: LeaseEpoch::new(epoch),
        }
    }

    /// A second lease equal to this one.
    pub fn copied(&self) -> (l: Self)
        ensures
            l == *self,
    {
        GpuLease {
            worker_id: self.worker_id.clone(),
            device_ordinal: self.device_ordinal,
            model_id: self.model_id.clone(),
            epoch: self.epoch,
        }
    }
}

} // verus!
