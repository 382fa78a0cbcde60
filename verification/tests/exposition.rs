use bpf_metrics::collect::{MapSnapshot, ProgSnapshot};
use bpf_metrics::decode::{DecodeOutcome, decode_complete, decode_stream};
use bpf_metrics::errors::ParseError;
use bpf_metrics::facade::BpfMetrics;
use bpf_metrics::kinds::{MapMetric, ProgMetric};

fn bv(s: &str) -> Vec<u8> {
    s.as_bytes().to_vec()
}

fn text(v: &[u8]) -> String {
    String::from_utf8(v.to_vec()).unwrap()
}

fn prog_snapshot(id: u32, type_text: &str, name: &str) -> ProgSnapshot {
    ProgSnapshot {
        id,
        type_text: bv(type_text),
        name: bv(name),
        uptime_ns: Some(1),
        size_jitted: 0,
        size_translated: 0,
        run_time_ns: 0,
        run_cnt: 0,
        verified_insns: 0,
        memory_locked: None,
    }
}

#[test]
fn end_to_end_example() {
    let mut metrics = BpfMetrics::new();
    metrics
        .register_prog_metrics(&vec![ProgMetric::RunCount, ProgMetric::MemoryLocked])
        .unwrap();
    let mut snap = prog_snapshot(7, "kprobe", "foo");
    snap.run_cnt = 42;
    snap.memory_locked = Some(4096);
    metrics.collect_metrics(&vec![snap], &vec![]);
    let payload = metrics.export_metrics().unwrap();
    let s = text(&payload);
    assert!(s.contains(
        "bpf_prog_execution_total{id=\"7\",program_type=\"kprobe\",name=\"foo\"} 42\n"
    ));
    assert!(s.contains(
        "bpf_prog_memory_locked{id=\"7\",program_type=\"kprobe\",name=\"foo\"} 4096\n"
    ));
    assert!(s.ends_with("# EOF\n"));

    let records = decode_complete(&payload).unwrap();
    assert_eq!(records.len(), 1);
    assert_eq!(records[0].id, 7);
    assert_eq!(records[0].run_cnt, 42);
    assert_eq!(records[0].type_text, bv("kprobe"));
    assert_eq!(records[0].name, bv("foo"));
}

#[test]
fn export_exact_payload() {
    let mut metrics = BpfMetrics::new();
    metrics.register_prog_metrics(&vec![ProgMetric::RunCount]).unwrap();
    let mut snap = prog_snapshot(7, "kprobe", "foo");
    snap.run_cnt = 42;
    metrics.collect_metrics(&vec![snap], &vec![]);
    let payload = metrics.export_metrics().unwrap();
    let expected = "# HELP bpf_prog_execution Accumulated execution count of the program\n\
                    # TYPE bpf_prog_execution counter\n\
                    # UNIT bpf_prog_execution count\n\
                    bpf_prog_execution_total{id=\"7\",program_type=\"kprobe\",name=\"foo\"} 42\n\
                    # EOF\n";
    assert_eq!(text(&payload), expected);
}

#[test]
fn export_twice_yields_no_samples() {
    let mut metrics = BpfMetrics::new();
    metrics.register_prog_metrics(&vec![ProgMetric::RunCount]).unwrap();
    let mut snap = prog_snapshot(7, "kprobe", "foo");
    snap.run_cnt = 42;
    metrics.collect_metrics(&vec![snap], &vec![]);
    let first = text(&metrics.export_metrics().unwrap());
    assert!(first.contains("bpf_prog_execution_total"));
    let second = text(&metrics.export_metrics().unwrap());
    let expected = "# HELP bpf_prog_execution Accumulated execution count of the program\n\
                    # TYPE bpf_prog_execution counter\n\
                    # UNIT bpf_prog_execution count\n\
                    # EOF\n";
    assert_eq!(second, expected);
    let records = decode_complete(second.as_bytes()).unwrap();
    assert!(records.is_empty());
}

#[test]
fn round_trip_two_entities() {
    let mut metrics = BpfMetrics::new();
    metrics
        .register_prog_metrics(&vec![
            ProgMetric::RunTime,
            ProgMetric::RunCount,
            ProgMetric::Uptime,
        ])
        .unwrap();
    let mut a = prog_snapshot(7, "kprobe", "foo");
    a.run_time_ns = 1111;
    a.run_cnt = 42;
    a.uptime_ns = Some(999);
    let mut b = prog_snapshot(3, "xdp", "bar");
    b.run_time_ns = 2222;
    b.run_cnt = 5;
    b.uptime_ns = Some(100);
    metrics.collect_metrics(&vec![a, b], &vec![]);
    let payload = metrics.export_metrics().unwrap();
    let records = decode_complete(&payload).unwrap();
    assert_eq!(records.len(), 2);
    assert_eq!(records[0].id, 3);
    assert_eq!(records[0].type_text, bv("xdp"));
    assert_eq!(records[0].name, bv("bar"));
    assert_eq!(records[0].run_time_ns, 2222);
    assert_eq!(records[0].run_cnt, 5);
    assert_eq!(records[0].uptime_ns, 100);
    assert_eq!(records[1].id, 7);
    assert_eq!(records[1].type_text, bv("kprobe"));
    assert_eq!(records[1].name, bv("foo"));
    assert_eq!(records[1].run_time_ns, 1111);
    assert_eq!(records[1].run_cnt, 42);
    assert_eq!(records[1].uptime_ns, 999);
    assert_eq!(records[0].prev_run_cnt, 0);
    assert_eq!(records[1].prev_run_time_ns, 0);
}

#[test]
fn label_escaping_round_trip() {
    let mut metrics = BpfMetrics::new();
    metrics.register_prog_metrics(&vec![ProgMetric::RunCount]).unwrap();
    let mut snap = prog_snapshot(9, "kp\"ro\\be", "f\\o\"o");
    snap.run_cnt = 1;
    metrics.collect_metrics(&vec![snap], &vec![]);
    let payload = metrics.export_metrics().unwrap();
    let s = text(&payload);
    assert!(s.contains("program_type=\"kp\\\"ro\\\\be\""));
    let records = decode_complete(&payload).unwrap();
    assert_eq!(records.len(), 1);
    assert_eq!(records[0].type_text, bv("kp\"ro\\be"));
    assert_eq!(records[0].name, bv("f\\o\"o"));
}

#[test]
fn section_order_independence() {
    let section_a = "# HELP bpf_prog_execution Accumulated execution count of the program\n\
                     # TYPE bpf_prog_execution counter\n\
                     # UNIT bpf_prog_execution count\n\
                     bpf_prog_execution_total{id=\"7\",program_type=\"kprobe\",name=\"foo\"} 42\n\
                     bpf_prog_execution_total{id=\"3\",program_type=\"xdp\",name=\"bar\"} 5\n";
    let section_b = "# HELP bpf_prog_run_time Accumulated duration the program has actively ran\n\
                     # TYPE bpf_prog_run_time counter\n\
                     # UNIT bpf_prog_run_time nanoseconds\n\
                     bpf_prog_run_time_total{id=\"7\",program_type=\"kprobe\",name=\"foo\"} 1111\n";
    let eof = "# EOF\n";
    let ab = format!("{}{}{}", section_a, section_b, eof);
    let ba = format!("{}{}{}", section_b, section_a, eof);
    let r1 = decode_complete(ab.as_bytes()).unwrap();
    let r2 = decode_complete(ba.as_bytes()).unwrap();
    assert_eq!(r1, r2);
    assert_eq!(r1.len(), 2);
    assert_eq!(r1[0].id, 3);
    assert_eq!(r1[1].id, 7);
    assert_eq!(r1[1].run_time_ns, 1111);
    assert_eq!(r1[1].run_cnt, 42);
}

#[test]
fn help_without_type_is_an_error() {
    let payload = "# HELP bpf_prog_execution Accumulated execution count of the program\n# EOF\n";
    assert_eq!(
        decode_complete(payload.as_bytes()),
        Err(ParseError::BadMetadata)
    );
}

#[test]
fn missing_end_marker_is_an_error() {
    let payload = "# HELP x y\n# TYPE x counter\n";
    assert_eq!(
        decode_complete(payload.as_bytes()),
        Err(ParseError::MissingEndMarker)
    );
    assert_eq!(decode_complete(b""), Err(ParseError::MissingEndMarker));
}

#[test]
fn incremental_feed_reports_need_more_input() {
    let payload = "# HELP x y\n# TYPE x counter\n# EOF\n";
    let bytes = payload.as_bytes();
    for cut in 0..bytes.len() {
        match decode_stream(&bytes[..cut]) {
            DecodeOutcome::NeedMoreInput => {}
            _ => panic!("prefix of length {} should need more input", cut),
        }
    }
    match decode_stream(bytes) {
        DecodeOutcome::Records(v) => assert!(v.is_empty()),
        _ => panic!("full payload should decode"),
    }
}

#[test]
fn malformed_sample_line_is_an_error() {
    let payload = "# HELP x y\n# TYPE x counter\nnot a sample\n# EOF\n";
    assert_eq!(
        decode_complete(payload.as_bytes()),
        Err(ParseError::BadSampleLine)
    );
}

#[test]
fn negative_tracked_counter_is_an_error() {
    let payload = "# HELP x y\n# TYPE x counter\n\
                   bpf_prog_execution_total{id=\"7\",program_type=\"a\",name=\"b\"} -5\n# EOF\n";
    assert_eq!(
        decode_complete(payload.as_bytes()),
        Err(ParseError::NegativeCounter)
    );
}

#[test]
fn trailing_data_is_an_error() {
    let payload = "# EOF\nx";
    assert_eq!(
        decode_complete(payload.as_bytes()),
        Err(ParseError::TrailingData)
    );
}

#[test]
fn unknown_metric_names_are_ignored() {
    let payload = "# HELP bpf_map_key_size Size of map key\n\
                   # TYPE bpf_map_key_size gauge\n\
                   # UNIT bpf_map_key_size bytes\n\
                   bpf_map_key_size{id=\"5\",program_type=\"array\",name=\"m\"} 4\n\
                   # EOF\n";
    let records = decode_complete(payload.as_bytes()).unwrap();
    assert!(records.is_empty());
}

#[test]
fn negative_gauge_values_are_encoded_signed() {
    let payload = "# HELP g h\n# TYPE g gauge\n\
                   some_gauge{id=\"1\",program_type=\"a\",name=\"b\"} -17\n# EOF\n";
    let records = decode_complete(payload.as_bytes()).unwrap();
    assert!(records.is_empty());
}

#[test]
fn map_sections_decode_alongside_program_sections() {
    let mut metrics = BpfMetrics::new();
    metrics.register_prog_metrics(&vec![ProgMetric::RunCount]).unwrap();
    metrics.register_map_metrics(&vec![MapMetric::MaxEntries]).unwrap();
    let mut snap = prog_snapshot(7, "kprobe", "foo");
    snap.run_cnt = 42;
    let map_snap = MapSnapshot {
        id: 12,
        type_text: bv("array"),
        name: bv("mymap"),
        key_size: 4,
        value_size: 8,
        max_entries: 1024,
    };
    metrics.collect_metrics(&vec![snap], &vec![map_snap]);
    let payload = metrics.export_metrics().unwrap();
    let s = text(&payload);
    assert!(s.contains(
        "bpf_map_max_entries{id=\"12\",program_type=\"array\",name=\"mymap\"} 1024\n"
    ));
    let records = decode_complete(&payload).unwrap();
    assert_eq!(records.len(), 1);
    assert_eq!(records[0].id, 7);
}

#[test]
fn boundary_values_round_trip() {
    let mut metrics = BpfMetrics::new();
    metrics.register_prog_metrics(&vec![ProgMetric::RunCount]).unwrap();
    let mut snap = prog_snapshot(u32::MAX, "kprobe", "edge");
    snap.run_cnt = u64::MAX;
    metrics.collect_metrics(&vec![snap], &vec![]);
    let payload = metrics.export_metrics().unwrap();
    let s = text(&payload);
    assert!(s.contains("{id=\"4294967295\","));
    assert!(s.contains("} 18446744073709551615\n"));
    let records = decode_complete(&payload).unwrap();
    assert_eq!(records.len(), 1);
    assert_eq!(records[0].id, u32::MAX);
    assert_eq!(records[0].run_cnt, u64::MAX);
}

#[test]
fn overflowing_values_are_refused() {
    let too_big_value = "# HELP x y\n# TYPE x counter\n\
                         bpf_prog_execution_total{id=\"7\",program_type=\"a\",name=\"b\"} 18446744073709551616\n# EOF\n";
    assert_eq!(
        decode_complete(too_big_value.as_bytes()),
        Err(ParseError::BadSampleLine)
    );
    let too_big_id = "# HELP x y\n# TYPE x counter\n\
                      bpf_prog_execution_total{id=\"4294967296\",program_type=\"a\",name=\"b\"} 1\n# EOF\n";
    assert_eq!(
        decode_complete(too_big_id.as_bytes()),
        Err(ParseError::BadSampleLine)
    );
}
