//! The orchestrator facade: ties registration, collection and export into
//! one call sequence over a single registry.
use vstd::prelude::*;

use crate::bytes::{ascii_bytes, lit_bytes};
use crate::collect::{
    MapSnapshot, ProgSnapshot, collect_map_snapshots, collect_maps, collect_prog_snapshots,
    collect_progs, map_snaps_view, prog_snaps_view,
};
use crate::encode::{enc_registry, encodable, encode_registry};
use crate::errors::{ConfigError, EncodeError};
use crate::kinds::{MapMetric, MetricKind, MetricType, ProgMetric};
use crate::registry::{FamilyV, MetricRegistry, clear_all, has_kind};

verus! {

/// The metric type of a program metric: run time, run count and uptime
/// accumulate, the rest are point-in-time levels.
pub open spec fn prog_metric_type(m: ProgMetric) -> MetricType {
    match m {
        ProgMetric::Uptime => MetricType::Counter,
        ProgMetric::RunTime => MetricType::Counter,
        ProgMetric::RunCount => MetricType::Counter,
        ProgMetric::SizeJitted => MetricType::Gauge,
        ProgMetric::SizeTranslated => MetricType::Gauge,
        ProgMetric::VerifiedInstructions => MetricType::Gauge,
        ProgMetric::MemoryLocked => MetricType::Gauge,
    }
}

/// Bytes of `"uptime"`.
pub open spec fn nm_uptime() -> Seq<u8> {
    seq![117u8, 112u8, 116u8, 105u8, 109u8, 101u8]
}

/// Bytes of `"run_time"`.
pub open spec fn nm_run_time() -> Seq<u8> {
    seq![114u8, 117u8, 110u8, 95u8, 116u8, 105u8, 109u8, 101u8]
}

/// Bytes of `"execution"`.
pub open spec fn nm_execution() -> Seq<u8> {
    seq![101u8, 120u8, 101u8, 99u8, 117u8, 116u8, 105u8, 111u8, 110u8]
}

/// Bytes of `"size_jitted"`.
pub open spec fn nm_size_jitted() -> Seq<u8> {
    seq![115u8, 105u8, 122u8, 101u8, 95u8, 106u8, 105u8, 116u8, 116u8, 101u8, 100u8]
}

/// Bytes of `"size_translated"`.
pub open spec fn nm_size_translated() -> Seq<u8> {
    seq![
        115u8,
        105u8,
        122u8,
        101u8,
        95u8,
        116u8,
        114u8,
        97u8,
        110u8,
        115u8,
        108u8,
        97u8,
        116u8,
        101u8,
        100u8,
    ]
}

/// Bytes of `"verified_instruction"`.
pub open spec fn nm_verified_instruction() -> Seq<u8> {
    seq![
        118u8,
        101u8,
        114u8,
        105u8,
        102u8,
        105u8,
        101u8,
        100u8,
        95u8,
        105u8,
        110u8,
        115u8,
        116u8,
        114u8,
        117u8,
        99u8,
        116u8,
        105u8,
        111u8,
        110u8,
    ]
}

/// Bytes of `"memory_locked"`.
pub open spec fn nm_memory_locked() -> Seq<u8> {
    seq![109u8, 101u8, 109u8, 111u8, 114u8, 121u8, 95u8, 108u8, 111u8, 99u8, 107u8, 101u8, 100u8]
}

/// Bytes of `"key_size"`.
pub open spec fn nm_key_size() -> Seq<u8> {
    seq![107u8, 101u8, 121u8, 95u8, 115u8, 105u8, 122u8, 101u8]
}

/// Bytes of `"value_size"`.
pub open spec fn nm_value_size() -> Seq<u8> {
    seq![118u8, 97u8, 108u8, 117u8, 101u8, 95u8, 115u8, 105u8, 122u8, 101u8]
}

/// Bytes of `"max_entries"`.
pub open spec fn nm_max_entries() -> Seq<u8> {
    seq![109u8, 97u8, 120u8, 95u8, 101u8, 110u8, 116u8, 114u8, 105u8, 101u8, 115u8]
}

/// Bytes of `"nanoseconds"`.
pub open spec fn unit_nanoseconds() -> Seq<u8> {
    seq![110u8, 97u8, 110u8, 111u8, 115u8, 101u8, 99u8, 111u8, 110u8, 100u8, 115u8]
}

/// Bytes of `"count"`.
pub open spec fn unit_count() -> Seq<u8> {
    seq![99u8, 111u8, 117u8, 110u8, 116u8]
}

/// Bytes of `"bytes"`.
pub open spec fn unit_bytes() -> Seq<u8> {
    seq![98u8, 121u8, 116u8, 101u8, 115u8]
}

/// The family name of a program metric.
pub open spec fn prog_metric_name(m: ProgMetric) -> Seq<u8> {
    match m {
        ProgMetric::Uptime => nm_uptime(),
        ProgMetric::RunTime => nm_run_time(),
        ProgMetric::RunCount => nm_execution(),
        ProgMetric::SizeJitted => nm_size_jitted(),
        ProgMetric::SizeTranslated => nm_size_translated(),
        ProgMetric::VerifiedInstructions => nm_verified_instruction(),
        ProgMetric::MemoryLocked => nm_memory_locked(),
    }
}

/// The help text of a program metric.
pub open spec fn prog_metric_help(m: ProgMetric) -> Seq<u8> {
    match m {
        ProgMetric::Uptime => ascii_bytes("Duration program has been loaded"@),
        ProgMetric::RunTime => ascii_bytes("Accumulated duration the program has actively ran"@),
        ProgMetric::RunCount => ascii_bytes("Accumulated execution count of the program"@),
        ProgMetric::SizeJitted => ascii_bytes("Size of program's JIT-compiled machine code"@),
        ProgMetric::SizeTranslated => ascii_bytes("Size of program's translated bytecode"@),
        ProgMetric::VerifiedInstructions => ascii_bytes(
            "Number of verified instructions in the program"@,
        ),
        ProgMetric::MemoryLocked => ascii_bytes(
            "Amount of memory allocated and locked for the program"@,
        ),
    }
}

/// The unit of a program metric.
pub open spec fn prog_metric_unit(m: ProgMetric) -> Seq<u8> {
    match m {
        ProgMetric::Uptime => unit_nanoseconds(),
        ProgMetric::RunTime => unit_nanoseconds(),
        ProgMetric::RunCount => unit_count(),
        ProgMetric::SizeJitted => unit_bytes(),
        ProgMetric::SizeTranslated => unit_bytes(),
        ProgMetric::VerifiedInstructions => unit_count(),
        ProgMetric::MemoryLocked => unit_bytes(),
    }
}

/// The family name of a map metric.
pub open spec fn map_metric_name(m: MapMetric) -> Seq<u8> {
    match m {
        MapMetric::KeySize => nm_key_size(),
        MapMetric::ValueSize => nm_value_size(),
        MapMetric::MaxEntries => nm_max_entries(),
    }
}

/// The help text of a map metric.
pub open spec fn map_metric_help(m: MapMetric) -> Seq<u8> {
    match m {
        MapMetric::KeySize => ascii_bytes("Size of map key"@),
        MapMetric::ValueSize => ascii_bytes("Size of map value"@),
        MapMetric::MaxEntries => ascii_bytes("Maximum entries map can hold"@),
    }
}

/// The unit of a map metric.
pub open spec fn map_metric_unit(m: MapMetric) -> Seq<u8> {
    match m {
        MapMetric::KeySize => unit_bytes(),
        MapMetric::ValueSize => unit_bytes(),
        MapMetric::MaxEntries => unit_count(),
    }
}

/// The family a program metric registers as, before any samples are written.
pub open spec fn prog_family(m: ProgMetric) -> FamilyV {
    FamilyV {
        kind: MetricKind::Prog(m),
        mtype: prog_metric_type(m),
        name: prog_metric_name(m),
        help: prog_metric_help(m),
        unit: Option::Some(prog_metric_unit(m)),
        samples: Seq::empty(),
    }
}

/// The family a map metric registers as, before any samples are written.
pub open spec fn map_family(m: MapMetric) -> FamilyV {
    FamilyV {
        kind: MetricKind::MapObject(m),
        mtype: MetricType::Gauge,
        name: map_metric_name(m),
        help: map_metric_help(m),
        unit: Option::Some(map_metric_unit(m)),
        samples: Seq::empty(),
    }
}

/// The registry state after registering a batch of program metrics.
pub open spec fn reg_progs(fams: Seq<FamilyV>, ms: Seq<ProgMetric>) -> Seq<FamilyV>
    decreases ms.len(),
{
    if ms.len() == 0 {
        fams
    } else {
        reg_progs(fams, ms.drop_last()).push(prog_family(ms.last()))
    }
}

/// The registry state after registering a batch of map metrics.
pub open spec fn reg_maps(fams: Seq<FamilyV>, ms: Seq<MapMetric>) -> Seq<FamilyV>
    decreases ms.len(),
{
    if ms.len() == 0 {
        fams
    } else {
        reg_maps(fams, ms.drop_last()).push(map_family(ms.last()))
    }
}

/// Whether a batch of program metrics can register without a duplicate:
/// none already registered, no two alike in the batch.
pub open spec fn prog_batch_ok(fams: Seq<FamilyV>, ms: Seq<ProgMetric>) -> bool {
    &&& (forall|i: int|
        0 <= i < ms.len() ==> !has_kind(fams, MetricKind::Prog(#[trigger] ms[i])))
    &&& (forall|i: int, j: int| #![trigger ms[i], ms[j]] 0 <= i < j < ms.len() ==> ms[i] != ms[j])
}

/// Whether a batch of map metrics can register without a duplicate.
pub open spec fn map_batch_ok(fams: Seq<FamilyV>, ms: Seq<MapMetric>) -> bool {
    &&& (forall|i: int|
        0 <= i < ms.len() ==> !has_kind(fams, MetricKind::MapObject(#[trigger] ms[i])))
    &&& (forall|i: int, j: int| #![trigger ms[i], ms[j]] 0 <= i < j < ms.len() ==> ms[i] != ms[j])
}

/// Registering program metrics adds exactly their kinds.
pub proof fn lemma_reg_progs_kinds(fams: Seq<FamilyV>, ms: Seq<ProgMetric>, k: MetricKind)
    ensures
        has_kind(reg_progs(fams, ms), k) == (has_kind(fams, k) || exists|i: int|
            0 <= i < ms.len() && MetricKind::Prog(#[trigger] ms[i]) == k),
    decreases ms.len(),
{
    if ms.len() == 0 {
    } else {
        lemma_reg_progs_kinds(fams, ms.drop_last(), k);
        let prev = reg_progs(fams, ms.drop_last());
        let cur = prev.push(prog_family(ms.last()));
        assert forall|i: int| 0 <= i < prev.len() implies cur[i] == prev[i] by {}
        if has_kind(prev, k) {
            let i = choose|i: int| 0 <= i < prev.len() && prev[i].kind == k;
            assert(cur[i].kind == k);
        }
        if MetricKind::Prog(ms.last()) == k {
            assert(cur[cur.len() - 1].kind == k);
            assert(ms[ms.len() - 1] == ms.last());
        }
        if has_kind(cur, k) {
            let i = choose|i: int| 0 <= i < cur.len() && cur[i].kind == k;
            if i < prev.len() {
                assert(prev[i].kind == k);
            }
        }
        if exists|i: int| 0 <= i < ms.len() && MetricKind::Prog(#[trigger] ms[i]) == k {
            let i = choose|i: int| 0 <= i < ms.len() && MetricKind::Prog(#[trigger] ms[i]) == k;
            if i < ms.len() - 1 {
                assert(ms.drop_last()[i] == ms[i]);
            }
        }
    }
}

/// Registering map metrics adds exactly their kinds.
pub proof fn lemma_reg_maps_kinds(fams: Seq<FamilyV>, ms: Seq<MapMetric>, k: MetricKind)
    ensures
        has_kind(reg_maps(fams, ms), k) == (has_kind(fams, k) || exists|i: int|
            0 <= i < ms.len() && MetricKind::MapObject(#[trigger] ms[i]) == k),
    decreases ms.len(),
{
    if ms.len() == 0 {
    } else {
        lemma_reg_maps_kinds(fams, ms.drop_last(), k);
        let prev = reg_maps(fams, ms.drop_last());
        let cur = prev.push(map_family(ms.last()));
        if has_kind(prev, k) {
            let i = choose|i: int| 0 <= i < prev.len() && prev[i].kind == k;
            assert(cur[i].kind == k);
        }
        if MetricKind::MapObject(ms.last()) == k {
            assert(cur[cur.len() - 1].kind == k);
            assert(ms[ms.len() - 1] == ms.last());
        }
        if has_kind(cur, k) {
            let i = choose|i: int| 0 <= i < cur.len() && cur[i].kind == k;
            if i < prev.len() {
                assert(prev[i].kind == k);
            }
        }
        if exists|i: int| 0 <= i < ms.len() && MetricKind::MapObject(#[trigger] ms[i]) == k {
            let i = choose|i: int|
                0 <= i < ms.len() && MetricKind::MapObject(#[trigger] ms[i]) == k;
            if i < ms.len() - 1 {
                assert(ms.drop_last()[i] == ms[i]);
            }
        }
    }
}

/// Builds the name, help and unit of a program metric.
fn prog_metric_meta(m: ProgMetric) -> (r: (Vec<u8>, Vec<u8>, Vec<u8>))
    ensures
        r.0@ == prog_metric_name(m),
        r.1@ == prog_metric_help(m),
        r.2@ == prog_metric_unit(m),
{
    match m {
        ProgMetric::Uptime => {
            proof {
                reveal_strlit("uptime");
                assert(ascii_bytes("uptime"@) =~= nm_uptime());
                reveal_strlit("Duration program has been loaded");
                reveal_strlit("nanoseconds");
                assert(ascii_bytes("nanoseconds"@) =~= unit_nanoseconds());
            }
            (
                lit_bytes("uptime"),
                lit_bytes("Duration program has been loaded"),
                lit_bytes("nanoseconds"),
            )
        },
        ProgMetric::RunTime => {
            proof {
                reveal_strlit("run_time");
                assert(ascii_bytes("run_time"@) =~= nm_run_time());
                reveal_strlit("Accumulated duration the program has actively ran");
                reveal_strlit("nanoseconds");
                assert(ascii_bytes("nanoseconds"@) =~= unit_nanoseconds());
            }
            (
                lit_bytes("run_time"),
                lit_bytes("Accumulated duration the program has actively ran"),
                lit_bytes("nanoseconds"),
            )
        },
        ProgMetric::RunCount => {
            proof {
                reveal_strlit("execution");
                assert(ascii_bytes("execution"@) =~= nm_execution());
                reveal_strlit("Accumulated execution count of the program");
                reveal_strlit("count");
                assert(ascii_bytes("count"@) =~= unit_count());
            }
            (
                lit_bytes("execution"),
                lit_bytes("Accumulated execution count of the program"),
                lit_bytes("count"),
            )
        },
        ProgMetric::SizeJitted => {
            proof {
                reveal_strlit("size_jitted");
                assert(ascii_bytes("size_jitted"@) =~= nm_size_jitted());
                reveal_strlit("Size of program's JIT-compiled machine code");
                reveal_strlit("bytes");
                assert(ascii_bytes("bytes"@) =~= unit_bytes());
            }
            (
                lit_bytes("size_jitted"),
                lit_bytes("Size of program's JIT-compiled machine code"),
                lit_bytes("bytes"),
            )
        },
        ProgMetric::SizeTranslated => {
            proof {
                reveal_strlit("size_translated");
                assert(ascii_bytes("size_translated"@) =~= nm_size_translated());
                reveal_strlit("Size of program's translated bytecode");
                reveal_strlit("bytes");
                assert(ascii_bytes("bytes"@) =~= unit_bytes());
            }
            (
                lit_bytes("size_translated"),
                lit_bytes("Size of program's translated bytecode"),
                lit_bytes("bytes"),
            )
        },
        ProgMetric::VerifiedInstructions => {
            proof {
                reveal_strlit("verified_instruction");
                assert(ascii_bytes("verified_instruction"@) =~= nm_verified_instruction());
                reveal_strlit("Number of verified instructions in the program");
                reveal_strlit("count");
                assert(ascii_bytes("count"@) =~= unit_count());
            }
            (
                lit_bytes("verified_instruction"),
                lit_bytes("Number of verified instructions in the program"),
                lit_bytes("count"),
            )
        },
        ProgMetric::MemoryLocked => {
            proof {
                reveal_strlit("memory_locked");
                assert(ascii_bytes("memory_locked"@) =~= nm_memory_locked());
                reveal_strlit("Amount of memory allocated and locked for the program");
                reveal_strlit("bytes");
                assert(ascii_bytes("bytes"@) =~= unit_bytes());
            }
            (
                lit_bytes("memory_locked"),
                lit_bytes("Amount of memory allocated and locked for the program"),
                lit_bytes("bytes"),
            )
        },
    }
}

/// Builds the name, help and unit of a map metric.
fn map_metric_meta(m: MapMetric) -> (r: (Vec<u8>, Vec<u8>, Vec<u8>))
    ensures
        r.0@ == map_metric_name(m),
        r.1@ == map_metric_help(m),
        r.2@ == map_metric_unit(m),
{
    match m {
        MapMetric::KeySize => {
            proof {
                reveal_strlit("key_size");
                assert(ascii_bytes("key_size"@) =~= nm_key_size());
                reveal_strlit("Size of map key");
                reveal_strlit("bytes");
                assert(ascii_bytes("bytes"@) =~= unit_bytes());
            }
            (lit_bytes("key_size"), lit_bytes("Size of map key"), lit_bytes("bytes"))
        },
        MapMetric::ValueSize => {
            proof {
                reveal_strlit("value_size");
                assert(ascii_bytes("value_size"@) =~= nm_value_size());
                reveal_strlit("Size of map value");
                reveal_strlit("bytes");
                assert(ascii_bytes("bytes"@) =~= unit_bytes());
            }
            (lit_bytes("value_size"), lit_bytes("Size of map value"), lit_bytes("bytes"))
        },
        MapMetric::MaxEntries => {
            proof {
                reveal_strlit("max_entries");
                assert(ascii_bytes("max_entries"@) =~= nm_max_entries());
                reveal_strlit("Maximum entries map can hold");
                reveal_strlit("count");
                assert(ascii_bytes("count"@) =~= unit_count());
            }
            (lit_bytes("max_entries"), lit_bytes("Maximum entries map can hold"), lit_bytes("count"))
        },
    }
}

/// The metrics registry and collector for kernel-resident BPF objects.
///
/// The intended cycle: register the metric kinds of interest once, then
/// repeat collect followed by export. Export consumes the samples.
pub struct BpfMetrics {
    /// The registry all families live in.
    pub registry: MetricRegistry,
}

impl View for BpfMetrics {
    type V = Seq<FamilyV>;

    open spec fn view(&self) -> Seq<FamilyV> {
        self.registry@
    }
}

impl BpfMetrics {
    /// A collector with an empty registry.
    pub fn new() -> (r: BpfMetrics)
        ensures
            r@ == Seq::<FamilyV>::empty(),
    {
        BpfMetrics { registry: MetricRegistry::new() }
    }

    /// Registers the given program metrics, each as a family with its fixed
    /// name, help text, unit and metric type. Refused as a whole, leaving
    /// the registry unchanged, when one of them is already registered or
    /// the batch repeats one.
    pub fn register_prog_metrics(&mut self, metrics: &Vec<ProgMetric>) -> (r: Result<
        (),
        ConfigError,
    >)
        ensures
            match r {
                Result::Ok(()) => prog_batch_ok(old(self)@, metrics@) && final(self)@ == reg_progs(
                    old(self)@,
                    metrics@,
                ),
                Result::Err(e) => !prog_batch_ok(old(self)@, metrics@) && final(self)@ == old(
                    self,
                )@ && e == ConfigError::DuplicateKind,
            },
    {
        let n = metrics.len();
        let mut i: usize = 0;
        while i < n
            invariant
                n == metrics@.len(),
                i <= n,
                self == old(self),
                forall|m: int|
                    0 <= m < i ==> !has_kind(self@, MetricKind::Prog(#[trigger] metrics@[m])),
                forall|m: int, p: int|
                    #![trigger metrics@[m], metrics@[p]]
                    0 <= m < p < i ==> metrics@[m] != metrics@[p],
            decreases n - i,
        {
            if self.registry.kind_registered(MetricKind::Prog(metrics[i])) {
                return Result::Err(ConfigError::DuplicateKind);
            }
            let mut j: usize = 0;
            while j < i
                invariant
                    j <= i,
                    i < n,
                    n == metrics@.len(),
                    forall|m: int| 0 <= m < j ==> metrics@[m] != metrics@[i as int],
                decreases i - j,
            {
                if metrics[j] == metrics[i] {
                    return Result::Err(ConfigError::DuplicateKind);
                }
                j = j + 1;
            }
            i = i + 1;
        }
        let ghost orig = self@;
        let ghost ms = metrics@;
        let mut k: usize = 0;
        proof {
            assert(ms.take(0) =~= Seq::<ProgMetric>::empty());
        }
        while k < n
            invariant
                n == metrics@.len(),
                ms == metrics@,
                k <= n,
                prog_batch_ok(orig, ms),
                self@ == reg_progs(orig, ms.take(k as int)),
            decreases n - k,
        {
            let m = metrics[k];
            let (name, help, unit) = prog_metric_meta(m);
            proof {
                lemma_reg_progs_kinds(orig, ms.take(k as int), MetricKind::Prog(ms[k as int]));
                assert(!has_kind(self@, MetricKind::Prog(ms[k as int])));
            }
            let res = match prog_metric_type_of(m) {
                MetricType::Counter => self.registry.register_counter(
                    MetricKind::Prog(m),
                    name,
                    help,
                    Option::Some(unit),
                ),
                MetricType::Gauge => self.registry.register_gauge(
                    MetricKind::Prog(m),
                    name,
                    help,
                    Option::Some(unit),
                ),
            };
            proof {
                assert(res is Ok);
                assert(ms.take(k + 1).drop_last() =~= ms.take(k as int));
                assert(ms.take(k + 1).last() == ms[k as int]);
                assert(self@ == reg_progs(orig, ms.take(k + 1)));
            }
            k = k + 1;
        }
        proof {
            assert(ms.take(ms.len() as int) =~= ms);
        }
        Result::Ok(())
    }

    /// Registers the given map metrics, each as a gauge family with its
    /// fixed name, help text and unit. Refused as a whole, leaving the
    /// registry unchanged, when one of them is already registered or the
    /// batch repeats one.
    pub fn register_map_metrics(&mut self, metrics: &Vec<MapMetric>) -> (r: Result<
        (),
        ConfigError,
    >)
        ensures
            match r {
                Result::Ok(()) => map_batch_ok(old(self)@, metrics@) && final(self)@ == reg_maps(
                    old(self)@,
                    metrics@,
                ),
                Result::Err(e) => !map_batch_ok(old(self)@, metrics@) && final(self)@ == old(
                    self,
                )@ && e == ConfigError::DuplicateKind,
            },
    {
        let n = metrics.len();
        let mut i: usize = 0;
        while i < n
            invariant
                n == metrics@.len(),
                i <= n,
                self == old(self),
                forall|m: int|
                    0 <= m < i ==> !has_kind(self@, MetricKind::MapObject(#[trigger] metrics@[m])),
                forall|m: int, p: int|
                    #![trigger metrics@[m], metrics@[p]]
                    0 <= m < p < i ==> metrics@[m] != metrics@[p],
            decreases n - i,
        {
            if self.registry.kind_registered(MetricKind::MapObject(metrics[i])) {
                return Result::Err(ConfigError::DuplicateKind);
            }
            let mut j: usize = 0;
            while j < i
                invariant
                    j <= i,
                    i < n,
                    n == metrics@.len(),
                    forall|m: int| 0 <= m < j ==> metrics@[m] != metrics@[i as int],
                decreases i - j,
            {
                if metrics[j] == metrics[i] {
                    return Result::Err(ConfigError::DuplicateKind);
                }
                j = j + 1;
            }
            i = i + 1;
        }
        let ghost orig = self@;
        let ghost ms = metrics@;
        let mut k: usize = 0;
        proof {
            assert(ms.take(0) =~= Seq::<MapMetric>::empty());
        }
        while k < n
            invariant
                n == metrics@.len(),
                ms == metrics@,
                k <= n,
                map_batch_ok(orig, ms),
                self@ == reg_maps(orig, ms.take(k as int)),
            decreases n - k,
        {
            let m = metrics[k];
            let (name, help, unit) = map_metric_meta(m);
            proof {
                lemma_reg_maps_kinds(orig, ms.take(k as int), MetricKind::MapObject(ms[k as int]));
                assert(!has_kind(self@, MetricKind::MapObject(ms[k as int])));
            }
            let res = self.registry.register_gauge(
                MetricKind::MapObject(m),
                name,
                help,
                Option::Some(unit),
            );
            proof {
                assert(res is Ok);
                assert(ms.take(k + 1).drop_last() =~= ms.take(k as int));
                assert(ms.take(k + 1).last() == ms[k as int]);
                assert(self@ == reg_maps(orig, ms.take(k + 1)));
            }
            k = k + 1;
        }
        proof {
            assert(ms.take(ms.len() as int) =~= ms);
        }
        Result::Ok(())
    }

    /// Runs one collection cycle over the given snapshots: programs first,
    /// then maps. Entries with an empty name, and program entries without a
    /// known uptime, are soft-skipped; updates for unregistered kinds are
    /// no-ops, so a caller may register any subset of the known metrics.
    pub fn collect_metrics(&mut self, progs: &Vec<ProgSnapshot>, maps: &Vec<MapSnapshot>)
        ensures
            final(self)@ == collect_maps(
                collect_progs(old(self)@, prog_snaps_view(progs@)),
                map_snaps_view(maps@),
            ),
    {
        collect_prog_snapshots(&mut self.registry, progs);
        collect_map_snapshots(&mut self.registry, maps);
    }

    /// Serializes the registry into the exposition text format and then
    /// discards every family's samples, whether or not serialization
    /// succeeded: the scrape consumes the sample, and stale data never
    /// leaks into the next cycle. A second export without an intervening
    /// collection therefore yields a payload without samples.
    pub fn export_metrics(&mut self) -> (r: Result<Vec<u8>, EncodeError>)
        ensures
            final(self)@ == clear_all(old(self)@),
            match r {
                Result::Ok(v) => encodable(old(self)@) && v@ == enc_registry(old(self)@),
                Result::Err(e) => !encodable(old(self)@) && e == EncodeError::InvalidText,
            },
    {
        let r = encode_registry(&self.registry);
        self.registry.clear_metrics();
        r
    }
}

/// Returns the metric type of a program metric.
pub fn prog_metric_type_of(m: ProgMetric) -> (r: MetricType)
    ensures
        r == prog_metric_type(m),
{
    match m {
        ProgMetric::Uptime => MetricType::Counter,
        ProgMetric::RunTime => MetricType::Counter,
        ProgMetric::RunCount => MetricType::Counter,
        ProgMetric::SizeJitted => MetricType::Gauge,
        ProgMetric::SizeTranslated => MetricType::Gauge,
        ProgMetric::VerifiedInstructions => MetricType::Gauge,
        ProgMetric::MemoryLocked => MetricType::Gauge,
    }
}

} // verus!
