use bpf_metrics::collect::ProgSnapshot;
use bpf_metrics::decode::decode_complete;
use bpf_metrics::encode::encode_registry;
use bpf_metrics::errors::{ConfigError, EncodeError};
use bpf_metrics::facade::BpfMetrics;
use bpf_metrics::kinds::{MetricKind, ProgMetric};
use bpf_metrics::labels::LabelSet;
use bpf_metrics::record::EntityRecord;
use bpf_metrics::registry::MetricRegistry;
use bpf_metrics::stats::stats_flag_enabled;

fn bv(s: &str) -> Vec<u8> {
    s.as_bytes().to_vec()
}

fn text(v: &[u8]) -> String {
    String::from_utf8(v.to_vec()).unwrap()
}

fn labels(id: u32, type_text: &str, name: &str) -> LabelSet {
    LabelSet::new(id, bv(type_text), bv(name))
}

fn registry_with_counter() -> MetricRegistry {
    let mut reg = MetricRegistry::new();
    reg.register_counter(
        MetricKind::Prog(ProgMetric::RunCount),
        bv("execution"),
        bv("Accumulated execution count of the program"),
        Some(bv("count")),
    )
    .unwrap();
    reg
}

#[test]
fn update_on_unregistered_kind_is_a_no_op() {
    let mut reg = registry_with_counter();
    let before = encode_registry(&reg).unwrap();
    reg.update_counter(MetricKind::Prog(ProgMetric::RunTime), &labels(1, "a", "b"), 7);
    reg.update_gauge(MetricKind::Prog(ProgMetric::SizeJitted), &labels(1, "a", "b"), 7);
    // A gauge update on a kind registered as a counter is a no-op too.
    reg.update_gauge(MetricKind::Prog(ProgMetric::RunCount), &labels(1, "a", "b"), 7);
    let after = encode_registry(&reg).unwrap();
    assert_eq!(before, after);
}

#[test]
fn update_overwrites_within_a_cycle() {
    let mut reg = registry_with_counter();
    let l = labels(1, "kprobe", "x");
    reg.update_counter(MetricKind::Prog(ProgMetric::RunCount), &l, 5);
    reg.update_counter(MetricKind::Prog(ProgMetric::RunCount), &l, 9);
    let payload = encode_registry(&reg).unwrap();
    let s = text(&payload);
    assert!(s.contains("bpf_prog_execution_total{id=\"1\",program_type=\"kprobe\",name=\"x\"} 9\n"));
    assert!(!s.contains("} 5\n"));
}

#[test]
fn clear_metrics_discards_samples_and_keeps_families() {
    let mut reg = registry_with_counter();
    reg.update_counter(MetricKind::Prog(ProgMetric::RunCount), &labels(1, "a", "b"), 5);
    reg.clear_metrics();
    let s = text(&encode_registry(&reg).unwrap());
    assert!(s.contains("# TYPE bpf_prog_execution counter\n"));
    assert!(!s.contains("bpf_prog_execution_total{"));
    assert_eq!(reg.family_count(), 1);
}

#[test]
fn duplicate_registration_is_refused() {
    let mut reg = registry_with_counter();
    let err = reg.register_counter(
        MetricKind::Prog(ProgMetric::RunCount),
        bv("execution"),
        bv("again"),
        None,
    );
    assert_eq!(err, Err(ConfigError::DuplicateKind));
    assert_eq!(reg.family_count(), 1);
}

#[test]
fn duplicate_batch_registration_leaves_registry_unchanged() {
    let mut metrics = BpfMetrics::new();
    let r = metrics.register_prog_metrics(&vec![ProgMetric::RunCount, ProgMetric::RunCount]);
    assert_eq!(r, Err(ConfigError::DuplicateKind));
    assert_eq!(metrics.registry.family_count(), 0);
    metrics.register_prog_metrics(&vec![ProgMetric::RunCount]).unwrap();
    let again = metrics.register_prog_metrics(&vec![ProgMetric::Uptime, ProgMetric::RunCount]);
    assert_eq!(again, Err(ConfigError::DuplicateKind));
    assert_eq!(metrics.registry.family_count(), 1);
}

#[test]
fn empty_name_snapshot_never_appears() {
    let mut metrics = BpfMetrics::new();
    metrics.register_prog_metrics(&vec![ProgMetric::RunCount]).unwrap();
    let snap = ProgSnapshot {
        id: 8,
        type_text: bv("kprobe"),
        name: bv(""),
        uptime_ns: Some(1),
        size_jitted: 0,
        size_translated: 0,
        run_time_ns: 0,
        run_cnt: 1000,
        verified_insns: 0,
        memory_locked: None,
    };
    metrics.collect_metrics(&vec![snap], &vec![]);
    let s = text(&metrics.export_metrics().unwrap());
    assert!(!s.contains("bpf_prog_execution_total{"));
    assert!(!s.contains("1000"));
}

#[test]
fn snapshot_without_uptime_is_skipped_whole() {
    let mut metrics = BpfMetrics::new();
    metrics.register_prog_metrics(&vec![ProgMetric::RunCount]).unwrap();
    let snap = ProgSnapshot {
        id: 8,
        type_text: bv("kprobe"),
        name: bv("late"),
        uptime_ns: None,
        size_jitted: 0,
        size_translated: 0,
        run_time_ns: 0,
        run_cnt: 1000,
        verified_insns: 0,
        memory_locked: None,
    };
    metrics.collect_metrics(&vec![snap], &vec![]);
    let s = text(&metrics.export_metrics().unwrap());
    assert!(!s.contains("bpf_prog_execution_total{"));
}

#[test]
fn unserializable_metadata_fails_and_still_clears() {
    let mut metrics = BpfMetrics::new();
    metrics
        .registry
        .register_counter(
            MetricKind::Prog(ProgMetric::RunCount),
            bv("bad name"),
            bv("spaces are not name bytes"),
            None,
        )
        .unwrap();
    metrics.registry.update_counter(
        MetricKind::Prog(ProgMetric::RunCount),
        &labels(1, "a", "b"),
        5,
    );
    assert_eq!(metrics.export_metrics(), Err(EncodeError::InvalidText));
    // The families were still cleared: stale data never leaks forward.
    assert_eq!(metrics.registry.family_count(), 1);
    assert_eq!(metrics.registry.families[0].samples.len(), 0);
}

#[test]
fn negative_gauge_is_rendered_signed() {
    let mut reg = MetricRegistry::new();
    reg.register_gauge(
        MetricKind::Prog(ProgMetric::SizeJitted),
        bv("size_jitted"),
        bv("Size of program's JIT-compiled machine code"),
        Some(bv("bytes")),
    )
    .unwrap();
    reg.update_gauge(MetricKind::Prog(ProgMetric::SizeJitted), &labels(2, "t", "n"), -17);
    let s = text(&encode_registry(&reg).unwrap());
    assert!(s.contains("bpf_prog_size_jitted{id=\"2\",program_type=\"t\",name=\"n\"} -17\n"));
}

#[test]
fn record_deltas_clamp_to_zero() {
    let current = EntityRecord {
        id: 1,
        type_text: bv("kprobe"),
        name: bv("foo"),
        run_time_ns: 500,
        prev_run_time_ns: 0,
        run_cnt: 3,
        prev_run_cnt: 0,
        uptime_ns: 10,
    };
    let prior = EntityRecord {
        id: 1,
        type_text: bv("kprobe"),
        name: bv("foo"),
        run_time_ns: 200,
        prev_run_time_ns: 0,
        run_cnt: 8,
        prev_run_cnt: 0,
        uptime_ns: 5,
    };
    let merged = current.with_previous(&prior);
    assert_eq!(merged.prev_run_time_ns, 200);
    assert_eq!(merged.prev_run_cnt, 8);
    assert_eq!(merged.run_time_delta(), 300);
    // The counter moved backwards (a reset or a reused ID): clamp to zero.
    assert_eq!(merged.run_cnt_delta(), 0);
}

#[test]
fn stats_flag_reads_the_control_text() {
    assert!(stats_flag_enabled(b"1"));
    assert!(stats_flag_enabled(b"1\n"));
    assert!(stats_flag_enabled(b" \t1\r\n"));
    assert!(!stats_flag_enabled(b"0\n"));
    assert!(!stats_flag_enabled(b"10"));
    assert!(!stats_flag_enabled(b""));
    assert!(!stats_flag_enabled(b" \n"));
}
