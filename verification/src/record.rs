//! Reconstructed per-entity records, the decoder's output. A record holds
//! the current and previous values of the rate-relevant program counters;
//! previous values are supplied by the caller from the prior record, the
//! decoder itself is stateless per call.
use vstd::prelude::*;

use crate::bytes::copy_bytes;

verus! {

/// Mathematical value of an [`EntityRecord`].
pub struct RecV {
    pub id: u32,
    pub type_text: Seq<u8>,
    pub name: Seq<u8>,
    pub run_time_ns: u64,
    pub prev_run_time_ns: u64,
    pub run_cnt: u64,
    pub prev_run_cnt: u64,
    pub uptime_ns: u64,
}

/// One reconstructed entity: its identity and the tracked numeric fields.
/// Freshly decoded records carry zero in every `prev_` field.
#[derive(Debug, Clone, PartialEq, Eq)]
pub struct EntityRecord {
    /// Unique ID of the entity, the join key across family sections.
    pub id: u32,
    /// Name of the entity's type.
    pub type_text: Vec<u8>,
    /// Name of the entity.
    pub name: Vec<u8>,
    /// Current accumulated run time in nanoseconds.
    pub run_time_ns: u64,
    /// Run time of the prior scrape, for delta computation.
    pub prev_run_time_ns: u64,
    /// Current accumulated execution count.
    pub run_cnt: u64,
    /// Execution count of the prior scrape, for delta computation.
    pub prev_run_cnt: u64,
    /// Time since the entity was loaded, in nanoseconds.
    pub uptime_ns: u64,
}

impl View for EntityRecord {
    type V = RecV;

    open spec fn view(&self) -> RecV {
        RecV {
            id: self.id,
            type_text: self.type_text@,
            name: self.name@,
            run_time_ns: self.run_time_ns,
            prev_run_time_ns: self.prev_run_time_ns,
            run_cnt: self.run_cnt,
            prev_run_cnt: self.prev_run_cnt,
            uptime_ns: self.uptime_ns,
        }
    }
}

impl EntityRecord {
    /// This record with its previous values taken from the prior scrape's
    /// record for the same entity.
    pub fn with_previous(&self, prior: &EntityRecord) -> (r: EntityRecord)
        ensures
            r@ == (RecV {
                prev_run_time_ns: prior@.run_time_ns,
                prev_run_cnt: prior@.run_cnt,
                ..self@
            }),
    {
        EntityRecord {
            id: self.id,
            type_text: copy_bytes(&self.type_text),
            name: copy_bytes(&self.name),
            run_time_ns: self.run_time_ns,
            prev_run_time_ns: prior.run_time_ns,
            run_cnt: self.run_cnt,
            prev_run_cnt: prior.run_cnt,
            uptime_ns: self.uptime_ns,
        }
    }

    /// The run-time delta since the prior scrape, clamped to zero when the
    /// counter moved backwards (a kernel counter reset, or an entity
    /// re-created under a reused ID).
    pub fn run_time_delta(&self) -> (r: u64)
        ensures
            r == if self.run_time_ns >= self.prev_run_time_ns {
                (self.run_time_ns - self.prev_run_time_ns) as u64
            } else {
                0u64
            },
    {
        if self.run_time_ns >= self.prev_run_time_ns {
            self.run_time_ns - self.prev_run_time_ns
        } else {
            0
        }
    }

    /// The execution-count delta since the prior scrape, clamped to zero
    /// when the counter moved backwards.
    pub fn run_cnt_delta(&self) -> (r: u64)
        ensures
            r == if self.run_cnt >= self.prev_run_cnt {
                (self.run_cnt - self.prev_run_cnt) as u64
            } else {
                0u64
            },
    {
        if self.run_cnt >= self.prev_run_cnt {
            self.run_cnt - self.prev_run_cnt
        } else {
            0
        }
    }
}

} // verus!
