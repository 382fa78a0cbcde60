//! Translation of data-source snapshots into registry updates: one
//! collection cycle per subject kind. The data source itself (kernel
//! introspection) stays outside; it hands in plain snapshot values.
use vstd::prelude::*;

use crate::kinds::{MapMetric, MetricKind, MetricType, ProgMetric};
use crate::labels::{LabelSet, LabelSetV};
use crate::registry::{FamilyV, MetricRegistry, MetricValue, upd_value};

verus! {

/// Mathematical value of a [`ProgSnapshot`].
pub struct ProgSnapshotV {
    pub id: u32,
    pub type_text: Seq<u8>,
    pub name: Seq<u8>,
    pub uptime_ns: Option<u64>,
    pub size_jitted: u32,
    pub size_translated: u32,
    pub run_time_ns: u64,
    pub run_cnt: u64,
    pub verified_insns: u32,
    pub memory_locked: Option<u32>,
}

/// One observation of a loaded program, as the data-source adapter hands it
/// in. `uptime_ns` is the derived time since the program was loaded; it is
/// absent when the load timestamp is unavailable or lies in the future, and
/// the whole entry is then soft-skipped.
pub struct ProgSnapshot {
    /// Unique ID of the program.
    pub id: u32,
    /// Name of the program's type.
    pub type_text: Vec<u8>,
    /// Name of the program; empty for not-yet-initialized entities.
    pub name: Vec<u8>,
    /// Time since the program was loaded, when known.
    pub uptime_ns: Option<u64>,
    /// Size of the program's JIT-compiled machine code in bytes.
    pub size_jitted: u32,
    /// Size of the program's translated bytecode in bytes.
    pub size_translated: u32,
    /// Accumulated run time in nanoseconds.
    pub run_time_ns: u64,
    /// Accumulated execution count.
    pub run_cnt: u64,
    /// Number of verified instructions.
    pub verified_insns: u32,
    /// Memory allocated and locked for the program, when known.
    pub memory_locked: Option<u32>,
}

impl View for ProgSnapshot {
    type V = ProgSnapshotV;

    open spec fn view(&self) -> ProgSnapshotV {
        ProgSnapshotV {
            id: self.id,
            type_text: self.type_text@,
            name: self.name@,
            uptime_ns: self.uptime_ns,
            size_jitted: self.size_jitted,
            size_translated: self.size_translated,
            run_time_ns: self.run_time_ns,
            run_cnt: self.run_cnt,
            verified_insns: self.verified_insns,
            memory_locked: self.memory_locked,
        }
    }
}

/// Mathematical value of a [`MapSnapshot`].
pub struct MapSnapshotV {
    pub id: u32,
    pub type_text: Seq<u8>,
    pub name: Seq<u8>,
    pub key_size: u32,
    pub value_size: u32,
    pub max_entries: u32,
}

/// One observation of a loaded map, as the data-source adapter hands it in.
pub struct MapSnapshot {
    /// Unique ID of the map.
    pub id: u32,
    /// Name of the map's type.
    pub type_text: Vec<u8>,
    /// Name of the map; empty for not-yet-initialized entities.
    pub name: Vec<u8>,
    /// Size of a map key in bytes.
    pub key_size: u32,
    /// Size of a map value in bytes.
    pub value_size: u32,
    /// Maximum number of entries the map can hold.
    pub max_entries: u32,
}

impl View for MapSnapshot {
    type V = MapSnapshotV;

    open spec fn view(&self) -> MapSnapshotV {
        MapSnapshotV {
            id: self.id,
            type_text: self.type_text@,
            name: self.name@,
            key_size: self.key_size,
            value_size: self.value_size,
            max_entries: self.max_entries,
        }
    }
}

/// The label set a program snapshot identifies itself with.
pub open spec fn prog_labels(s: ProgSnapshotV) -> LabelSetV {
    LabelSetV { id: s.id, type_text: s.type_text, name: s.name }
}

/// The label set a map snapshot identifies itself with.
pub open spec fn map_labels(s: MapSnapshotV) -> LabelSetV {
    LabelSetV { id: s.id, type_text: s.type_text, name: s.name }
}

/// The memory-locked gauge level of a program snapshot: zero when unknown.
pub open spec fn memory_locked_level(s: ProgSnapshotV) -> i64 {
    match s.memory_locked {
        Option::None => 0,
        Option::Some(v) => v as i64,
    }
}

/// The registry updates one program snapshot causes. An entry with an empty
/// name, or without a known uptime, is soft-skipped as a whole: partially
/// initialized entities must not pollute the families. Updates for
/// unregistered kinds are no-ops.
pub open spec fn collect_prog_one(fams: Seq<FamilyV>, s: ProgSnapshotV) -> Seq<FamilyV> {
    if s.name.len() == 0 || s.uptime_ns is None {
        fams
    } else {
        let l = prog_labels(s);
        let f1 = upd_value(
            fams,
            MetricKind::Prog(ProgMetric::Uptime),
            MetricType::Counter,
            l,
            MetricValue::Count(s.uptime_ns->Some_0),
        );
        let f2 = upd_value(
            f1,
            MetricKind::Prog(ProgMetric::SizeJitted),
            MetricType::Gauge,
            l,
            MetricValue::Level(s.size_jitted as i64),
        );
        let f3 = upd_value(
            f2,
            MetricKind::Prog(ProgMetric::SizeTranslated),
            MetricType::Gauge,
            l,
            MetricValue::Level(s.size_translated as i64),
        );
        let f4 = upd_value(
            f3,
            MetricKind::Prog(ProgMetric::RunTime),
            MetricType::Counter,
            l,
            MetricValue::Count(s.run_time_ns),
        );
        let f5 = upd_value(
            f4,
            MetricKind::Prog(ProgMetric::RunCount),
            MetricType::Counter,
            l,
            MetricValue::Count(s.run_cnt),
        );
        let f6 = upd_value(
            f5,
            MetricKind::Prog(ProgMetric::VerifiedInstructions),
            MetricType::Gauge,
            l,
            MetricValue::Level(s.verified_insns as i64),
        );
        upd_value(
            f6,
            MetricKind::Prog(ProgMetric::MemoryLocked),
            MetricType::Gauge,
            l,
            MetricValue::Level(memory_locked_level(s)),
        )
    }
}

/// The registry updates one map snapshot causes. An entry with an empty
/// name is soft-skipped as a whole.
pub open spec fn collect_map_one(fams: Seq<FamilyV>, s: MapSnapshotV) -> Seq<FamilyV> {
    if s.name.len() == 0 {
        fams
    } else {
        let l = map_labels(s);
        let f1 = upd_value(
            fams,
            MetricKind::MapObject(MapMetric::KeySize),
            MetricType::Gauge,
            l,
            MetricValue::Level(s.key_size as i64),
        );
        let f2 = upd_value(
            f1,
            MetricKind::MapObject(MapMetric::ValueSize),
            MetricType::Gauge,
            l,
            MetricValue::Level(s.value_size as i64),
        );
        upd_value(
            f2,
            MetricKind::MapObject(MapMetric::MaxEntries),
            MetricType::Gauge,
            l,
            MetricValue::Level(s.max_entries as i64),
        )
    }
}

/// The values of a sequence of program snapshots.
pub open spec fn prog_snaps_view(s: Seq<ProgSnapshot>) -> Seq<ProgSnapshotV> {
    Seq::new(s.len(), |i: int| s[i]@)
}

/// The values of a sequence of map snapshots.
pub open spec fn map_snaps_view(s: Seq<MapSnapshot>) -> Seq<MapSnapshotV> {
    Seq::new(s.len(), |i: int| s[i]@)
}

/// One whole program collection cycle: the snapshots applied in order.
pub open spec fn collect_progs(fams: Seq<FamilyV>, ss: Seq<ProgSnapshotV>) -> Seq<FamilyV>
    decreases ss.len(),
{
    if ss.len() == 0 {
        fams
    } else {
        collect_prog_one(collect_progs(fams, ss.drop_last()), ss.last())
    }
}

/// One whole map collection cycle: the snapshots applied in order.
pub open spec fn collect_maps(fams: Seq<FamilyV>, ss: Seq<MapSnapshotV>) -> Seq<FamilyV>
    decreases ss.len(),
{
    if ss.len() == 0 {
        fams
    } else {
        collect_map_one(collect_maps(fams, ss.drop_last()), ss.last())
    }
}

/// Builds the label set of a program snapshot.
fn prog_label_set(s: &ProgSnapshot) -> (r: LabelSet)
    ensures
        r@ == prog_labels(s@),
{
    let type_text = crate::bytes::copy_bytes(&s.type_text);
    let name = crate::bytes::copy_bytes(&s.name);
    LabelSet::new(s.id, type_text, name)
}

/// Builds the label set of a map snapshot.
fn map_label_set(s: &MapSnapshot) -> (r: LabelSet)
    ensures
        r@ == map_labels(s@),
{
    let type_text = crate::bytes::copy_bytes(&s.type_text);
    let name = crate::bytes::copy_bytes(&s.name);
    LabelSet::new(s.id, type_text, name)
}

/// Runs one program collection cycle: translates every snapshot into its
/// updates, skipping entries with an empty name or without a known uptime.
pub fn collect_prog_snapshots(reg: &mut MetricRegistry, snaps: &Vec<ProgSnapshot>)
    ensures
        final(reg)@ == collect_progs(old(reg)@, prog_snaps_view(snaps@)),
{
    let ghost all = prog_snaps_view(snaps@);
    let mut i: usize = 0;
    proof {
        assert(all.take(0) =~= Seq::<ProgSnapshotV>::empty());
    }
    while i < snaps.len()
        invariant
            i <= snaps@.len(),
            all == prog_snaps_view(snaps@),
            all.len() == snaps@.len(),
            reg@ == collect_progs(old(reg)@, all.take(i as int)),
        decreases snaps@.len() - i,
    {
        let snap = &snaps[i];
        let skip_entry = snap.name.len() == 0 || snap.uptime_ns.is_none();
        if !skip_entry {
            let labels = prog_label_set(snap);
            let uptime = match snap.uptime_ns {
                Option::Some(u) => u,
                Option::None => 0,
            };
            reg.update_counter(MetricKind::Prog(ProgMetric::Uptime), &labels, uptime);
            reg.update_gauge(
                MetricKind::Prog(ProgMetric::SizeJitted),
                &labels,
                snap.size_jitted as i64,
            );
            reg.update_gauge(
                MetricKind::Prog(ProgMetric::SizeTranslated),
                &labels,
                snap.size_translated as i64,
            );
            reg.update_counter(MetricKind::Prog(ProgMetric::RunTime), &labels, snap.run_time_ns);
            reg.update_counter(MetricKind::Prog(ProgMetric::RunCount), &labels, snap.run_cnt);
            reg.update_gauge(
                MetricKind::Prog(ProgMetric::VerifiedInstructions),
                &labels,
                snap.verified_insns as i64,
            );
            let mem: i64 = match snap.memory_locked {
                Option::Some(v) => v as i64,
                Option::None => 0,
            };
            reg.update_gauge(MetricKind::Prog(ProgMetric::MemoryLocked), &labels, mem);
        }
        proof {
            assert(all.take(i + 1).drop_last() =~= all.take(i as int));
            assert(all.take(i + 1).last() == all[i as int]);
            assert(reg@ == collect_progs(old(reg)@, all.take(i + 1)));
        }
        i = i + 1;
    }
    proof {
        assert(all.take(all.len() as int) =~= all);
    }
}

/// Runs one map collection cycle: translates every snapshot into its
/// updates, skipping entries with an empty name.
pub fn collect_map_snapshots(reg: &mut MetricRegistry, snaps: &Vec<MapSnapshot>)
    ensures
        final(reg)@ == collect_maps(old(reg)@, map_snaps_view(snaps@)),
{
    let ghost all = map_snaps_view(snaps@);
    let mut i: usize = 0;
    proof {
        assert(all.take(0) =~= Seq::<MapSnapshotV>::empty());
    }
    while i < snaps.len()
        invariant
            i <= snaps@.len(),
            all == map_snaps_view(snaps@),
            all.len() == snaps@.len(),
            reg@ == collect_maps(old(reg)@, all.take(i as int)),
        decreases snaps@.len() - i,
    {
        let snap = &snaps[i];
        if snap.name.len() > 0 {
            let labels = map_label_set(snap);
            reg.update_gauge(
                MetricKind::MapObject(MapMetric::KeySize),
                &labels,
                snap.key_size as i64,
            );
            reg.update_gauge(
                MetricKind::MapObject(MapMetric::ValueSize),
                &labels,
                snap.value_size as i64,
            );
            reg.update_gauge(
                MetricKind::MapObject(MapMetric::MaxEntries),
                &labels,
                snap.max_entries as i64,
            );
        }
        proof {
            assert(all.take(i + 1).drop_last() =~= all.take(i as int));
            assert(all.take(i + 1).last() == all[i as int]);
            assert(reg@ == collect_maps(old(reg)@, all.take(i + 1)));
        }
        i = i + 1;
    }
    proof {
        assert(all.take(all.len() as int) =~= all);
    }
}

} // verus!
