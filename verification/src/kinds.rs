//! Subject kinds and the measurable quantities tracked per subject kind.
//!
//! A `MetricKind` names one measurable quantity of one subject kind. The
//! namespaces of the three subject kinds are disjoint by construction: a
//! program quantity, a map quantity and a link quantity can never collide.
use vstd::prelude::*;

verus! {

/// How a metric family accumulates: a counter is monotonic, a gauge is a
/// point-in-time level that may decrease.
#[derive(Clone, Copy, Debug, PartialEq, Eq, Structural)]
pub enum MetricType {
    Counter,
    Gauge,
}

/// A category of monitored kernel object, each with its own metric table.
/// No measurable quantities are defined for links yet; the subject kind is
/// listed for completeness of the model.
#[derive(Clone, Copy, Debug, PartialEq, Eq, Structural)]
pub enum SubjectKind {
    Program,
    MapObject,
    Link,
}

/// Metric options for a loaded program.
#[derive(Clone, Copy, Debug, PartialEq, Eq, Structural)]
pub enum ProgMetric {
    /// Size of the program's JIT-compiled machine code in bytes.
    SizeJitted,
    /// Size of the program's translated bytecode in bytes.
    SizeTranslated,
    /// Total duration the program has been loaded on the host in nanoseconds.
    Uptime,
    /// Accumulated time the program has been actively running in nanoseconds.
    RunTime,
    /// Accumulated execution count of the program.
    RunCount,
    /// Number of verified instructions in the program.
    VerifiedInstructions,
    /// Amount of memory allocated and locked for the program in bytes.
    MemoryLocked,
}

/// Metric options for a loaded map.
#[derive(Clone, Copy, Debug, PartialEq, Eq, Structural)]
pub enum MapMetric {
    /// Size of a map key in bytes.
    KeySize,
    /// Size of a map value in bytes.
    ValueSize,
    /// Maximum number of entries the map can hold.
    MaxEntries,
}

/// One measurable quantity, tagged with the subject kind it belongs to.
#[derive(Clone, Copy, Debug, PartialEq, Eq, Structural)]
pub enum MetricKind {
    Prog(ProgMetric),
    MapObject(MapMetric),
}

/// The subject kind a metric kind belongs to.
pub open spec fn subject_of(k: MetricKind) -> SubjectKind {
    match k {
        MetricKind::Prog(_) => SubjectKind::Program,
        MetricKind::MapObject(_) => SubjectKind::MapObject,
    }
}

/// Returns the subject kind a metric kind belongs to.
pub fn subject_of_kind(k: MetricKind) -> (r: SubjectKind)
    ensures
        r == subject_of(k),
{
    match k {
        MetricKind::Prog(_) => SubjectKind::Program,
        MetricKind::MapObject(_) => SubjectKind::MapObject,
    }
}

} // verus!
