//! Laws of the registry, the encoder and the decoder, stated over their
//! mathematical models and proved once and for all.
use vstd::prelude::*;

use crate::bytes::{
    all_digits, dec_digits, digits_prefix_len, digits_val, esc_bytes, find_byte, is_digit,
    lemma_dec_digits_val, lemma_digits_prefix_len_at, lemma_find_byte_at, scan_quoted, starts_with,
};
use crate::collect::{
    MapSnapshotV, ProgSnapshotV, collect_map_one, collect_maps, collect_prog_one, collect_progs,
};
use crate::decode::{
    DecOutcomeV, DecStateV, LineClassV, Phase, SampleTupleV, StepResV, TrackedField,
    apply_tracked, classify_line, dec_from, init_state, parse_after_brace, parse_after_id,
    parse_after_name, parse_after_type, parse_sample_line, parse_value, spec_decode, step_line,
    tracked_field,
};
use crate::encode::{
    counter_word, enc_families, enc_family, enc_registry, enc_sample, enc_samples, enc_value,
    encodable, eof_marker, fam_encodable, full_name, gauge_word, help_line, help_prefix, lb_close,
    lb_mid1, lb_mid2, lb_open, name_byte_ok, name_ok, sample_name, sample_text_ok, subj_prefix,
    text_ok, total_suffix, type_line, type_prefix, type_word, unit_line_opt, unit_prefix,
};
use crate::record::RecV;
use crate::kinds::{MetricKind, MetricType};
use crate::labels::LabelSetV;
use crate::registry::{
    FamilyV, MetricValue, SampleV, clear_all, fam_upd, has_kind, upd_value, upsert_sample,
};

verus! {

/// Law: an update for a metric kind that was never registered leaves the
/// registry state exactly as it was, and raises no error. This holds for
/// counters and gauges alike, whatever the labels and the value.
pub proof fn law_update_unregistered_no_op(
    fams: Seq<FamilyV>,
    k: MetricKind,
    mt: MetricType,
    l: LabelSetV,
    v: MetricValue,
)
    requires
        !has_kind(fams, k),
    ensures
        upd_value(fams, k, mt, l, v) == fams,
{
    crate::registry::lemma_upd_value_absent(fams, k, mt, l, v);
}

/// Every label set in every family has a nonempty instance name.
pub open spec fn all_names_nonempty(fams: Seq<FamilyV>) -> bool {
    forall|i: int, j: int|
        #![trigger fams[i].samples[j]]
        0 <= i < fams.len() && 0 <= j < fams[i].samples.len() ==> fams[i].samples[j].labels.name.len()
            > 0
}

proof fn lemma_upsert_keeps_nonempty(ss: Seq<SampleV>, l: LabelSetV, v: MetricValue)
    requires
        l.name.len() > 0,
        forall|j: int| 0 <= j < ss.len() ==> (#[trigger] ss[j]).labels.name.len() > 0,
    ensures
        forall|j: int|
            0 <= j < upsert_sample(ss, l, v).len() ==> (#[trigger] upsert_sample(ss, l, v)[j]).labels.name.len()
                > 0,
    decreases ss.len(),
{
    if ss.len() == 0 {
    } else if ss[0].labels == l {
    } else {
        assert forall|j: int| 0 <= j < ss.skip(1).len() implies (#[trigger] ss.skip(1)[j]).labels.name.len()
            > 0 by {
            assert(ss[j + 1].labels.name.len() > 0);
        }
        lemma_upsert_keeps_nonempty(ss.skip(1), l, v);
        let r = upsert_sample(ss, l, v);
        assert forall|j: int| 0 <= j < r.len() implies (#[trigger] r[j]).labels.name.len() > 0 by {
            if j > 0 {
                assert(r[j] == upsert_sample(ss.skip(1), l, v)[j - 1]);
            }
        }
    }
}

proof fn lemma_upd_keeps_nonempty(
    fams: Seq<FamilyV>,
    k: MetricKind,
    mt: MetricType,
    l: LabelSetV,
    v: MetricValue,
)
    requires
        l.name.len() > 0,
        all_names_nonempty(fams),
    ensures
        all_names_nonempty(upd_value(fams, k, mt, l, v)),
    decreases fams.len(),
{
    if fams.len() == 0 {
    } else if fams[0].kind == k {
        if fams[0].mtype == mt {
            let r = upd_value(fams, k, mt, l, v);
            assert forall|j: int| 0 <= j < fams[0].samples.len() implies (#[trigger] fams[0].samples[j]).labels.name.len()
                > 0 by {}
            lemma_upsert_keeps_nonempty(fams[0].samples, l, v);
            assert forall|i: int, j: int|
                #![trigger r[i].samples[j]]
                0 <= i < r.len() && 0 <= j < r[i].samples.len() implies r[i].samples[j].labels.name.len()
                > 0 by {
                if i == 0 {
                    assert(r[0] == fam_upd(fams[0], l, v));
                } else {
                    assert(r[i] == fams[i]);
                    assert(fams[i].samples[j].labels.name.len() > 0);
                }
            }
        }
    } else {
        assert forall|i: int, j: int|
            #![trigger fams.skip(1)[i].samples[j]]
            0 <= i < fams.skip(1).len() && 0 <= j < fams.skip(1)[i].samples.len() implies fams.skip(
            1,
        )[i].samples[j].labels.name.len() > 0 by {
            assert(fams[i + 1].samples[j].labels.name.len() > 0);
        }
        lemma_upd_keeps_nonempty(fams.skip(1), k, mt, l, v);
        let r = upd_value(fams, k, mt, l, v);
        let rest = upd_value(fams.skip(1), k, mt, l, v);
        assert forall|i: int, j: int|
            #![trigger r[i].samples[j]]
            0 <= i < r.len() && 0 <= j < r[i].samples.len() implies r[i].samples[j].labels.name.len()
            > 0 by {
            if i == 0 {
                assert(fams[0].samples[j].labels.name.len() > 0);
            } else {
                assert(r[i] == rest[i - 1]);
                assert(rest[i - 1].samples[j].labels.name.len() > 0);
            }
        }
    }
}

/// Law: an entity observed with an empty name never enters a family. One
/// program collection step keeps every instance name in the registry
/// nonempty, because a snapshot with an empty name is skipped whole and a
/// snapshot with a nonempty name only writes that name.
pub proof fn law_collect_prog_keeps_names_nonempty(fams: Seq<FamilyV>, s: ProgSnapshotV)
    requires
        all_names_nonempty(fams),
    ensures
        all_names_nonempty(collect_prog_one(fams, s)),
        s.name.len() == 0 ==> collect_prog_one(fams, s) == fams,
{
    if s.name.len() == 0 || s.uptime_ns is None {
    } else {
        let l = crate::collect::prog_labels(s);
        let f1 = upd_value(
            fams,
            MetricKind::Prog(crate::kinds::ProgMetric::Uptime),
            MetricType::Counter,
            l,
            MetricValue::Count(s.uptime_ns->Some_0),
        );
        lemma_upd_keeps_nonempty(
            fams,
            MetricKind::Prog(crate::kinds::ProgMetric::Uptime),
            MetricType::Counter,
            l,
            MetricValue::Count(s.uptime_ns->Some_0),
        );
        let f2 = upd_value(
            f1,
            MetricKind::Prog(crate::kinds::ProgMetric::SizeJitted),
            MetricType::Gauge,
            l,
            MetricValue::Level(s.size_jitted as i64),
        );
        lemma_upd_keeps_nonempty(
            f1,
            MetricKind::Prog(crate::kinds::ProgMetric::SizeJitted),
            MetricType::Gauge,
            l,
            MetricValue::Level(s.size_jitted as i64),
        );
        let f3 = upd_value(
            f2,
            MetricKind::Prog(crate::kinds::ProgMetric::SizeTranslated),
            MetricType::Gauge,
            l,
            MetricValue::Level(s.size_translated as i64),
        );
        lemma_upd_keeps_nonempty(
            f2,
            MetricKind::Prog(crate::kinds::ProgMetric::SizeTranslated),
            MetricType::Gauge,
            l,
            MetricValue::Level(s.size_translated as i64),
        );
        let f4 = upd_value(
            f3,
            MetricKind::Prog(crate::kinds::ProgMetric::RunTime),
            MetricType::Counter,
            l,
            MetricValue::Count(s.run_time_ns),
        );
        lemma_upd_keeps_nonempty(
            f3,
            MetricKind::Prog(crate::kinds::ProgMetric::RunTime),
            MetricType::Counter,
            l,
            MetricValue::Count(s.run_time_ns),
        );
        let f5 = upd_value(
            f4,
            MetricKind::Prog(crate::kinds::ProgMetric::RunCount),
            MetricType::Counter,
            l,
            MetricValue::Count(s.run_cnt),
        );
        lemma_upd_keeps_nonempty(
            f4,
            MetricKind::Prog(crate::kinds::ProgMetric::RunCount),
            MetricType::Counter,
            l,
            MetricValue::Count(s.run_cnt),
        );
        let f6 = upd_value(
            f5,
            MetricKind::Prog(crate::kinds::ProgMetric::VerifiedInstructions),
            MetricType::Gauge,
            l,
            MetricValue::Level(s.verified_insns as i64),
        );
        lemma_upd_keeps_nonempty(
            f5,
            MetricKind::Prog(crate::kinds::ProgMetric::VerifiedInstructions),
            MetricType::Gauge,
            l,
            MetricValue::Level(s.verified_insns as i64),
        );
        lemma_upd_keeps_nonempty(
            f6,
            MetricKind::Prog(crate::kinds::ProgMetric::MemoryLocked),
            MetricType::Gauge,
            l,
            MetricValue::Level(crate::collect::memory_locked_level(s)),
        );
    }
}

/// Law: one map collection step keeps every instance name in the registry
/// nonempty, and a snapshot with an empty name changes nothing.
pub proof fn law_collect_map_keeps_names_nonempty(fams: Seq<FamilyV>, s: MapSnapshotV)
    requires
        all_names_nonempty(fams),
    ensures
        all_names_nonempty(collect_map_one(fams, s)),
        s.name.len() == 0 ==> collect_map_one(fams, s) == fams,
{
    if s.name.len() == 0 {
    } else {
        let l = crate::collect::map_labels(s);
        let f1 = upd_value(
            fams,
            MetricKind::MapObject(crate::kinds::MapMetric::KeySize),
            MetricType::Gauge,
            l,
            MetricValue::Level(s.key_size as i64),
        );
        lemma_upd_keeps_nonempty(
            fams,
            MetricKind::MapObject(crate::kinds::MapMetric::KeySize),
            MetricType::Gauge,
            l,
            MetricValue::Level(s.key_size as i64),
        );
        let f2 = upd_value(
            f1,
            MetricKind::MapObject(crate::kinds::MapMetric::ValueSize),
            MetricType::Gauge,
            l,
            MetricValue::Level(s.value_size as i64),
        );
        lemma_upd_keeps_nonempty(
            f1,
            MetricKind::MapObject(crate::kinds::MapMetric::ValueSize),
            MetricType::Gauge,
            l,
            MetricValue::Level(s.value_size as i64),
        );
        lemma_upd_keeps_nonempty(
            f2,
            MetricKind::MapObject(crate::kinds::MapMetric::MaxEntries),
            MetricType::Gauge,
            l,
            MetricValue::Level(s.max_entries as i64),
        );
    }
}

/// Law: a whole collection cycle keeps every instance name nonempty, so an
/// entity with an empty name never appears in the exported families.
pub proof fn law_collect_all_keeps_names_nonempty(
    fams: Seq<FamilyV>,
    progs: Seq<ProgSnapshotV>,
    maps: Seq<MapSnapshotV>,
)
    requires
        all_names_nonempty(fams),
    ensures
        all_names_nonempty(collect_maps(collect_progs(fams, progs), maps)),
{
    lemma_collect_progs_nonempty(fams, progs);
    lemma_collect_maps_nonempty(collect_progs(fams, progs), maps);
}

proof fn lemma_collect_progs_nonempty(fams: Seq<FamilyV>, progs: Seq<ProgSnapshotV>)
    requires
        all_names_nonempty(fams),
    ensures
        all_names_nonempty(collect_progs(fams, progs)),
    decreases progs.len(),
{
    if progs.len() > 0 {
        lemma_collect_progs_nonempty(fams, progs.drop_last());
        law_collect_prog_keeps_names_nonempty(
            collect_progs(fams, progs.drop_last()),
            progs.last(),
        );
    }
}

proof fn lemma_collect_maps_nonempty(fams: Seq<FamilyV>, maps: Seq<MapSnapshotV>)
    requires
        all_names_nonempty(fams),
    ensures
        all_names_nonempty(collect_maps(fams, maps)),
    decreases maps.len(),
{
    if maps.len() > 0 {
        lemma_collect_maps_nonempty(fams, maps.drop_last());
        law_collect_map_keeps_names_nonempty(collect_maps(fams, maps.drop_last()), maps.last());
    }
}

/// Law: export consumes the samples. After one export every family's
/// sample set is empty, and clearing again changes nothing, so a second
/// export without an intervening collection serializes the same sample-free
/// families.
pub proof fn law_second_export_is_empty(fams: Seq<FamilyV>)
    ensures
        forall|i: int| 0 <= i < clear_all(fams).len() ==> (#[trigger] clear_all(fams)[i]).samples
            =~= Seq::<SampleV>::empty(),
        clear_all(clear_all(fams)) == clear_all(fams),
{
    assert(clear_all(clear_all(fams)) =~= clear_all(fams));
}


/// Whether an encoded value carries a minus sign.
pub open spec fn value_neg(v: MetricValue) -> bool {
    match v {
        MetricValue::Count(_) => false,
        MetricValue::Level(g) => g < 0,
    }
}

/// The magnitude of an encoded value.
pub open spec fn value_mag(v: MetricValue) -> u64 {
    match v {
        MetricValue::Count(c) => c,
        MetricValue::Level(g) => if g < 0 {
            (-(g as int)) as u64
        } else {
            g as u64
        },
    }
}

/// The sample tuple the decoder reads back from one encoded sample.
pub open spec fn tuple_of(nm: Seq<u8>, s: SampleV) -> SampleTupleV {
    SampleTupleV {
        metric: nm,
        id: s.labels.id,
        type_text: s.labels.type_text,
        name: s.labels.name,
        neg: value_neg(s.value),
        value: value_mag(s.value),
    }
}

/// The bytes of one encoded sample line without its newline.
pub open spec fn sample_body(nm: Seq<u8>, s: SampleV) -> Seq<u8> {
    nm + lb_open() + dec_digits(s.labels.id as nat) + lb_mid1() + esc_bytes(s.labels.type_text)
        + lb_mid2() + esc_bytes(s.labels.name) + lb_close() + enc_value(s.value)
}

/// An encoded sample is its body plus the newline.
pub proof fn lemma_enc_sample_split(nm: Seq<u8>, s: SampleV)
    ensures
        enc_sample(nm, s) == sample_body(nm, s) + seq![10u8],
{
    assert(enc_sample(nm, s) =~= sample_body(nm, s) + seq![10u8]);
}

/// Reading a quoted value back from its escaped form recovers it.
pub proof fn lemma_scan_quoted_esc(t: Seq<u8>, rest: Seq<u8>)
    ensures
        scan_quoted(esc_bytes(t) + seq![34u8] + rest) == Option::Some(
            (t, esc_bytes(t).len() + 1 as int),
        ),
    decreases t.len(),
{
    let s = esc_bytes(t) + seq![34u8] + rest;
    if t.len() == 0 {
        assert(esc_bytes(t) =~= Seq::<u8>::empty());
        assert(s[0] == 34);
        assert(scan_quoted(s) == Option::Some((Seq::<u8>::empty(), 1int)));
        assert(t =~= Seq::<u8>::empty());
    } else {
        let b = t[0];
        lemma_scan_quoted_esc(t.skip(1), rest);
        assert(esc_bytes(t) == crate::bytes::esc_byte(b) + esc_bytes(t.skip(1)));
        if b == 34 || b == 92 {
            assert(crate::bytes::esc_byte(b) =~= seq![92u8, b]);
            assert(s[0] == 92);
            assert(s[1] == b);
            assert(s.len() >= 2);
            assert(s.skip(2) =~= esc_bytes(t.skip(1)) + seq![34u8] + rest);
            assert(scan_quoted(s) == Option::Some(
                (seq![s[1]] + t.skip(1), esc_bytes(t.skip(1)).len() + 1 + 2int),
            ));
            assert(seq![s[1]] + t.skip(1) =~= t);
            assert(esc_bytes(t).len() == 2 + esc_bytes(t.skip(1)).len());
        } else {
            assert(crate::bytes::esc_byte(b) =~= seq![b]);
            assert(s[0] == b);
            assert(s.skip(1) =~= esc_bytes(t.skip(1)) + seq![34u8] + rest);
            assert(scan_quoted(s) == Option::Some(
                (seq![s[0]] + t.skip(1), esc_bytes(t.skip(1)).len() + 1 + 1int),
            ));
            assert(seq![s[0]] + t.skip(1) =~= t);
            assert(esc_bytes(t).len() == 1 + esc_bytes(t.skip(1)).len());
        }
    }
}

proof fn lemma_value_enc(metric: Seq<u8>, id: u32, tt: Seq<u8>, nm: Seq<u8>, v: MetricValue)
    ensures
        parse_value(metric, id, tt, nm, enc_value(v)) == Option::Some(
            SampleTupleV { metric, id, type_text: tt, name: nm, neg: value_neg(v), value: value_mag(v) },
        ),
{
    match v {
        MetricValue::Count(c) => {
            lemma_dec_digits_val(c as nat);
            let ds = enc_value(v);
            assert(ds[0] != 45);
            assert(digits_val(ds) == c as nat);
        },
        MetricValue::Level(g) => {
            if g < 0 {
                let mag = (-(g as int)) as nat;
                lemma_dec_digits_val(mag);
                let ev = enc_value(v);
                assert(ev =~= seq![45u8] + dec_digits(mag));
                assert(ev[0] == 45);
                assert(ev.len() > 0);
                assert(ev.skip(1) =~= dec_digits(mag));
                assert(digits_val(ev.skip(1)) == mag);
                assert(mag <= u64::MAX);
                assert(value_mag(v) == mag as u64);
            } else {
                lemma_dec_digits_val(g as nat);
                let ds = enc_value(v);
                assert(ds[0] != 45);
                assert(digits_val(ds) == g as nat);
            }
        },
    }
}

proof fn lemma_after_name_enc(metric: Seq<u8>, id: u32, tt: Seq<u8>, nm: Seq<u8>, v: MetricValue)
    ensures
        parse_after_name(crate::decode::close_sp() + enc_value(v), metric, id, tt, nm)
            == Option::Some(
            SampleTupleV { metric, id, type_text: tt, name: nm, neg: value_neg(v), value: value_mag(v) },
        ),
{
    let r5 = crate::decode::close_sp() + enc_value(v);
    assert(r5.take(2) =~= crate::decode::close_sp());
    assert(starts_with(r5, crate::decode::close_sp()));
    assert(r5.skip(2) =~= enc_value(v));
    lemma_value_enc(metric, id, tt, nm, v);
}

proof fn lemma_after_type_enc(metric: Seq<u8>, id: u32, tt: Seq<u8>, nm: Seq<u8>, v: MetricValue)
    ensures
        parse_after_type(
            crate::decode::name_sep() + esc_bytes(nm) + lb_close() + enc_value(v),
            metric,
            id,
            tt,
        ) == Option::Some(
            SampleTupleV { metric, id, type_text: tt, name: nm, neg: value_neg(v), value: value_mag(v) },
        ),
{
    let r4 = crate::decode::name_sep() + esc_bytes(nm) + lb_close() + enc_value(v);
    assert(r4.take(7) =~= crate::decode::name_sep());
    assert(starts_with(r4, crate::decode::name_sep()));
    assert(lb_close() =~= seq![34u8] + crate::decode::close_sp());
    assert(r4.skip(7) =~= esc_bytes(nm) + seq![34u8] + (crate::decode::close_sp() + enc_value(v)));
    lemma_scan_quoted_esc(nm, crate::decode::close_sp() + enc_value(v));
    let c2 = esc_bytes(nm).len() + 1 as int;
    assert(r4.skip(7).skip(c2) =~= crate::decode::close_sp() + enc_value(v));
    lemma_after_name_enc(metric, id, tt, nm, v);
}

proof fn lemma_after_id_enc(metric: Seq<u8>, id: u32, tt: Seq<u8>, nm: Seq<u8>, v: MetricValue)
    ensures
        parse_after_id(
            lb_mid1() + esc_bytes(tt) + lb_mid2() + esc_bytes(nm) + lb_close() + enc_value(v),
            metric,
            id,
        ) == Option::Some(
            SampleTupleV { metric, id, type_text: tt, name: nm, neg: value_neg(v), value: value_mag(v) },
        ),
{
    let r3 = lb_mid1() + esc_bytes(tt) + lb_mid2() + esc_bytes(nm) + lb_close() + enc_value(v);
    assert(r3.take(16) =~= lb_mid1());
    assert(starts_with(r3, lb_mid1()));
    assert(lb_mid2() =~= seq![34u8] + crate::decode::name_sep());
    assert(r3.skip(16) =~= esc_bytes(tt) + seq![34u8] + (crate::decode::name_sep() + esc_bytes(nm)
        + lb_close() + enc_value(v)));
    lemma_scan_quoted_esc(
        tt,
        crate::decode::name_sep() + esc_bytes(nm) + lb_close() + enc_value(v),
    );
    let c1 = esc_bytes(tt).len() + 1 as int;
    assert(r3.skip(16).skip(c1) =~= crate::decode::name_sep() + esc_bytes(nm) + lb_close()
        + enc_value(v));
    lemma_after_type_enc(metric, id, tt, nm, v);
}

proof fn lemma_after_brace_enc(metric: Seq<u8>, id: u32, tt: Seq<u8>, nm: Seq<u8>, v: MetricValue)
    ensures
        parse_after_brace(
            dec_digits(id as nat) + lb_mid1() + esc_bytes(tt) + lb_mid2() + esc_bytes(nm)
                + lb_close() + enc_value(v),
            metric,
        ) == Option::Some(
            SampleTupleV { metric, id, type_text: tt, name: nm, neg: value_neg(v), value: value_mag(v) },
        ),
{
    let dd = dec_digits(id as nat);
    let r2 = dd + lb_mid1() + esc_bytes(tt) + lb_mid2() + esc_bytes(nm) + lb_close() + enc_value(
        v,
    );
    lemma_dec_digits_val(id as nat);
    assert forall|j: int| 0 <= j < dd.len() implies is_digit(#[trigger] r2[j]) by {
        assert(r2[j] == dd[j]);
        assert(is_digit(dd[j]));
    }
    assert(r2[dd.len() as int] == lb_mid1()[0]);
    assert(!is_digit(34));
    lemma_digits_prefix_len_at(r2, dd.len() as int);
    assert(r2.take(dd.len() as int) =~= dd);
    assert(digits_val(r2.take(digits_prefix_len(r2))) == id as nat);
    assert(r2.skip(dd.len() as int) =~= lb_mid1() + esc_bytes(tt) + lb_mid2() + esc_bytes(nm)
        + lb_close() + enc_value(v));
    lemma_after_id_enc(metric, id, tt, nm, v);
}

/// Law, sample level: reading an encoded sample line back recovers the
/// metric name, the label tuple and the value exactly.
pub proof fn law_sample_line_round_trip(nm: Seq<u8>, s: SampleV)
    requires
        name_ok(nm),
    ensures
        parse_sample_line(sample_body(nm, s)) == Option::Some(tuple_of(nm, s)),
{
    let body = sample_body(nm, s);
    assert forall|j: int| 0 <= j < nm.len() implies body[j] != 123 by {
        assert(body[j] == nm[j]);
        assert(name_byte_ok(nm[j]));
    }
    assert(body[nm.len() as int] == lb_open()[0]);
    assert(lb_open()[0] == 123);
    lemma_find_byte_at(body, 123, nm.len() as int);
    assert(find_byte(body, 123) == nm.len());
    assert(nm.len() > 0);
    assert(body.take(nm.len() as int) =~= nm);
    let r1 = body.skip(nm.len() as int + 1);
    assert(lb_open() =~= seq![123u8] + crate::decode::idq());
    assert(r1 =~= crate::decode::idq() + (dec_digits(s.labels.id as nat) + lb_mid1() + esc_bytes(
        s.labels.type_text,
    ) + lb_mid2() + esc_bytes(s.labels.name) + lb_close() + enc_value(s.value)));
    assert(r1.take(4) =~= crate::decode::idq());
    assert(starts_with(r1, crate::decode::idq()));
    assert(r1.skip(4) =~= dec_digits(s.labels.id as nat) + lb_mid1() + esc_bytes(
        s.labels.type_text,
    ) + lb_mid2() + esc_bytes(s.labels.name) + lb_close() + enc_value(s.value));
    lemma_after_brace_enc(
        nm,
        s.labels.id,
        s.labels.type_text,
        s.labels.name,
        s.value,
    );
}


/// Every byte of `s` may stand in a family name.
pub open spec fn name_bytes_only(s: Seq<u8>) -> bool {
    forall|i: int| 0 <= i < s.len() ==> name_byte_ok(#[trigger] s[i])
}

proof fn lemma_text_ok_concat(a: Seq<u8>, b: Seq<u8>)
    requires
        text_ok(a),
        text_ok(b),
    ensures
        text_ok(a + b),
{
    assert forall|j: int| 0 <= j < (a + b).len() implies (a + b)[j] != 10 by {
        if j < a.len() {
            assert((a + b)[j] == a[j]);
        } else {
            assert((a + b)[j] == b[j - a.len()]);
        }
    }
}

proof fn lemma_name_bytes_concat(a: Seq<u8>, b: Seq<u8>)
    requires
        name_bytes_only(a),
        name_bytes_only(b),
    ensures
        name_bytes_only(a + b),
{
    assert forall|j: int| 0 <= j < (a + b).len() implies name_byte_ok(#[trigger] (a + b)[j]) by {
        if j < a.len() {
            assert((a + b)[j] == a[j]);
        } else {
            assert((a + b)[j] == b[j - a.len()]);
        }
    }
}

proof fn lemma_name_bytes_text_ok(s: Seq<u8>)
    requires
        name_bytes_only(s),
    ensures
        text_ok(s),
{
    assert forall|j: int| 0 <= j < s.len() implies s[j] != 10 by {
        assert(name_byte_ok(s[j]));
    }
}

proof fn lemma_digits_text_ok(s: Seq<u8>)
    requires
        all_digits(s),
    ensures
        text_ok(s),
{
    assert forall|j: int| 0 <= j < s.len() implies s[j] != 10 by {
        assert(is_digit(s[j]));
    }
}

proof fn lemma_esc_text_ok(t: Seq<u8>)
    requires
        text_ok(t),
    ensures
        text_ok(esc_bytes(t)),
    decreases t.len(),
{
    if t.len() > 0 {
        assert forall|j: int| 0 <= j < t.skip(1).len() implies t.skip(1)[j] != 10 by {
            assert(t[j + 1] != 10);
        }
        lemma_esc_text_ok(t.skip(1));
        assert(t[0] != 10);
        assert(text_ok(crate::bytes::esc_byte(t[0])));
        lemma_text_ok_concat(crate::bytes::esc_byte(t[0]), esc_bytes(t.skip(1)));
    }
}

proof fn lemma_enc_value_text_ok(v: MetricValue)
    ensures
        text_ok(enc_value(v)),
{
    match v {
        MetricValue::Count(c) => {
            lemma_dec_digits_val(c as nat);
            lemma_digits_text_ok(dec_digits(c as nat));
        },
        MetricValue::Level(g) => {
            if g < 0 {
                lemma_dec_digits_val((-(g as int)) as nat);
                lemma_digits_text_ok(dec_digits((-(g as int)) as nat));
                lemma_text_ok_concat(seq![45u8], dec_digits((-(g as int)) as nat));
            } else {
                lemma_dec_digits_val(g as nat);
                lemma_digits_text_ok(dec_digits(g as nat));
            }
        },
    }
}

/// The full exposition name of a family with a well-formed name is itself
/// well-formed, for gauges and counters alike.
pub proof fn lemma_full_name_ok(f: FamilyV)
    requires
        name_ok(f.name),
    ensures
        name_ok(full_name(f)),
        name_ok(sample_name(f)),
{
    assert(name_bytes_only(crate::encode::registry_prefix()));
    assert(name_bytes_only(seq![95u8]));
    assert(name_bytes_only(subj_prefix(crate::kinds::subject_of(f.kind))));
    assert(name_bytes_only(total_suffix()));
    lemma_name_bytes_concat(crate::encode::registry_prefix(), seq![95u8]);
    lemma_name_bytes_concat(
        crate::encode::registry_prefix() + seq![95u8],
        subj_prefix(crate::kinds::subject_of(f.kind)),
    );
    lemma_name_bytes_concat(
        crate::encode::registry_prefix() + seq![95u8] + subj_prefix(
            crate::kinds::subject_of(f.kind),
        ),
        seq![95u8],
    );
    lemma_name_bytes_concat(
        crate::encode::registry_prefix() + seq![95u8] + subj_prefix(
            crate::kinds::subject_of(f.kind),
        ) + seq![95u8],
        f.name,
    );
    assert(full_name(f).len() > 0);
    if f.mtype == MetricType::Counter {
        lemma_name_bytes_concat(full_name(f), total_suffix());
    }
}

/// The bytes of a family's HELP line without its newline.
pub open spec fn help_body(f: FamilyV) -> Seq<u8> {
    help_prefix() + full_name(f) + seq![32u8] + f.help
}

/// The bytes of a family's TYPE line without its newline.
pub open spec fn type_body(f: FamilyV) -> Seq<u8> {
    type_prefix() + full_name(f) + seq![32u8] + type_word(f.mtype)
}

/// The bytes of a family's UNIT line without its newline.
pub open spec fn unit_body(f: FamilyV, u: Seq<u8>) -> Seq<u8> {
    unit_prefix() + full_name(f) + seq![32u8] + u
}

proof fn lemma_line_splits(f: FamilyV)
    ensures
        help_line(f) == help_body(f) + seq![10u8],
        type_line(f) == type_body(f) + seq![10u8],
        (f.unit matches Option::Some(u) ==> unit_line_opt(f) == unit_body(f, u) + seq![10u8]),
{
    assert(help_line(f) =~= help_body(f) + seq![10u8]);
    assert(type_line(f) =~= type_body(f) + seq![10u8]);
    match f.unit {
        Option::Some(u) => {
            assert(unit_line_opt(f) =~= unit_body(f, u) + seq![10u8]);
        },
        Option::None => {},
    }
}

proof fn lemma_help_body_wf(f: FamilyV)
    requires
        name_ok(f.name),
        text_ok(f.help),
    ensures
        text_ok(help_body(f)),
        classify_line(help_body(f)) == LineClassV::Help,
{
    lemma_full_name_ok(f);
    lemma_name_bytes_text_ok(full_name(f));
    assert(text_ok(help_prefix()));
    assert(text_ok(seq![32u8]));
    lemma_text_ok_concat(help_prefix(), full_name(f));
    lemma_text_ok_concat(help_prefix() + full_name(f), seq![32u8]);
    lemma_text_ok_concat(help_prefix() + full_name(f) + seq![32u8], f.help);
    assert(help_body(f).take(7) =~= help_prefix());
    assert(starts_with(help_body(f), help_prefix()));
    assert(help_body(f).len() >= 7);
    assert(eof_marker().len() == 5);
    assert(help_body(f) != eof_marker());
}

proof fn lemma_type_body_wf(f: FamilyV)
    requires
        name_ok(f.name),
    ensures
        text_ok(type_body(f)),
        classify_line(type_body(f)) == LineClassV::TypeL,
{
    lemma_full_name_ok(f);
    lemma_name_bytes_text_ok(full_name(f));
    assert(text_ok(type_prefix()));
    assert(text_ok(counter_word()));
    assert(text_ok(gauge_word()));
    lemma_text_ok_concat(type_prefix(), full_name(f));
    lemma_text_ok_concat(type_prefix() + full_name(f), seq![32u8]);
    lemma_text_ok_concat(type_prefix() + full_name(f) + seq![32u8], type_word(f.mtype));
    assert(type_body(f).take(7) =~= type_prefix());
    assert(starts_with(type_body(f), type_prefix()));
    assert(type_body(f).len() >= 7);
    assert(eof_marker().len() == 5);
    assert(type_body(f) != eof_marker());
    assert(type_prefix()[2] == 84 && help_prefix()[2] == 72);
    assert(!starts_with(type_body(f), help_prefix())) by {
        if starts_with(type_body(f), help_prefix()) {
            assert(type_body(f).take(7)[2] == help_prefix()[2]);
        }
    }
}

proof fn lemma_unit_body_wf(f: FamilyV, u: Seq<u8>)
    requires
        name_ok(f.name),
        text_ok(u),
    ensures
        text_ok(unit_body(f, u)),
        classify_line(unit_body(f, u)) == LineClassV::Unit,
{
    lemma_full_name_ok(f);
    lemma_name_bytes_text_ok(full_name(f));
    assert(text_ok(unit_prefix()));
    lemma_text_ok_concat(unit_prefix(), full_name(f));
    lemma_text_ok_concat(unit_prefix() + full_name(f), seq![32u8]);
    lemma_text_ok_concat(unit_prefix() + full_name(f) + seq![32u8], u);
    assert(unit_body(f, u).take(7) =~= unit_prefix());
    assert(starts_with(unit_body(f, u), unit_prefix()));
    assert(unit_body(f, u).len() >= 7);
    assert(eof_marker().len() == 5);
    assert(unit_body(f, u) != eof_marker());
    assert(unit_prefix()[2] == 85 && help_prefix()[2] == 72 && type_prefix()[2] == 84);
    assert(!starts_with(unit_body(f, u), help_prefix())) by {
        if starts_with(unit_body(f, u), help_prefix()) {
            assert(unit_body(f, u).take(7)[2] == help_prefix()[2]);
        }
    }
    assert(!starts_with(unit_body(f, u), type_prefix())) by {
        if starts_with(unit_body(f, u), type_prefix()) {
            assert(unit_body(f, u).take(7)[2] == type_prefix()[2]);
        }
    }
}

proof fn lemma_sample_body_wf(nm: Seq<u8>, s: SampleV)
    requires
        name_ok(nm),
        sample_text_ok(s),
    ensures
        text_ok(sample_body(nm, s)),
        classify_line(sample_body(nm, s)) == LineClassV::SampleL(tuple_of(nm, s)),
{
    let body = sample_body(nm, s);
    lemma_dec_digits_val(s.labels.id as nat);
    lemma_digits_text_ok(dec_digits(s.labels.id as nat));
    lemma_esc_text_ok(s.labels.type_text);
    lemma_esc_text_ok(s.labels.name);
    lemma_enc_value_text_ok(s.value);
    lemma_name_bytes_text_ok(nm);
    lemma_text_ok_concat(nm, lb_open());
    lemma_text_ok_concat(nm + lb_open(), dec_digits(s.labels.id as nat));
    lemma_text_ok_concat(nm + lb_open() + dec_digits(s.labels.id as nat), lb_mid1());
    lemma_text_ok_concat(
        nm + lb_open() + dec_digits(s.labels.id as nat) + lb_mid1(),
        esc_bytes(s.labels.type_text),
    );
    lemma_text_ok_concat(
        nm + lb_open() + dec_digits(s.labels.id as nat) + lb_mid1() + esc_bytes(
            s.labels.type_text,
        ),
        lb_mid2(),
    );
    lemma_text_ok_concat(
        nm + lb_open() + dec_digits(s.labels.id as nat) + lb_mid1() + esc_bytes(
            s.labels.type_text,
        ) + lb_mid2(),
        esc_bytes(s.labels.name),
    );
    lemma_text_ok_concat(
        nm + lb_open() + dec_digits(s.labels.id as nat) + lb_mid1() + esc_bytes(
            s.labels.type_text,
        ) + lb_mid2() + esc_bytes(s.labels.name),
        lb_close(),
    );
    lemma_text_ok_concat(
        nm + lb_open() + dec_digits(s.labels.id as nat) + lb_mid1() + esc_bytes(
            s.labels.type_text,
        ) + lb_mid2() + esc_bytes(s.labels.name) + lb_close(),
        enc_value(s.value),
    );
    assert(body[0] == nm[0]);
    assert(name_byte_ok(nm[0]));
    assert(body[0] != 35);
    assert(eof_marker()[0] == 35);
    assert(body != eof_marker()) by {
        if body == eof_marker() {
            assert(body[0] == 35);
        }
    }
    assert(help_prefix()[0] == 35 && type_prefix()[0] == 35 && unit_prefix()[0] == 35);
    assert(!starts_with(body, help_prefix())) by {
        if starts_with(body, help_prefix()) {
            assert(body.take(7)[0] == help_prefix()[0]);
        }
    }
    assert(!starts_with(body, type_prefix())) by {
        if starts_with(body, type_prefix()) {
            assert(body.take(7)[0] == type_prefix()[0]);
        }
    }
    assert(!starts_with(body, unit_prefix())) by {
        if starts_with(body, unit_prefix()) {
            assert(body.take(7)[0] == unit_prefix()[0]);
        }
    }
    law_sample_line_round_trip(nm, s);
}

/// Runs the line machine over a newline-complete piece of input, giving the
/// state it leaves behind, or nothing when the machine fails, finishes, or
/// runs out of complete lines inside the piece.
pub open spec fn consume(st: DecStateV, a: Seq<u8>) -> Option<DecStateV>
    decreases a.len(),
{
    if a.len() == 0 {
        Option::Some(st)
    } else if st.phase == Phase::Done {
        Option::None
    } else {
        let i = find_byte(a, 10);
        if i < 0 || i >= a.len() {
            Option::None
        } else {
            match step_line(st, a.take(i)) {
                StepResV::Fail(e) => Option::None,
                StepResV::Next(st2) => consume(st2, a.skip(i + 1)),
            }
        }
    }
}

proof fn lemma_find_byte_prefix(a: Seq<u8>, b: Seq<u8>, k: int)
    requires
        0 <= k < a.len(),
        a[k] == 10,
        forall|j: int| 0 <= j < k ==> a[j] != 10,
    ensures
        find_byte(a + b, 10) == k,
        find_byte(a, 10) == k,
{
    lemma_find_byte_at(a, 10, k);
    assert((a + b)[k] == 10);
    assert forall|j: int| 0 <= j < k implies (a + b)[j] != 10 by {
        assert((a + b)[j] == a[j]);
    }
    lemma_find_byte_at(a + b, 10, k);
}

/// Processing a piece that the machine consumes whole, then the rest, is
/// processing the concatenation.
pub proof fn lemma_consume_concat(st: DecStateV, a: Seq<u8>, b: Seq<u8>)
    requires
        consume(st, a) is Some,
    ensures
        consume(st, a + b) == consume(consume(st, a)->Some_0, b),
    decreases a.len(),
{
    if a.len() == 0 {
        assert(a + b =~= b);
    } else {
        assert(st.phase != Phase::Done);
        let i = find_byte(a, 10);
        assert(0 <= i < a.len());
        crate::bytes::lemma_find_byte_bounds(a, 10);
        lemma_find_byte_prefix(a, b, i);
        assert((a + b).take(i) =~= a.take(i));
        match step_line(st, a.take(i)) {
            StepResV::Fail(e) => {
                assert(false);
            },
            StepResV::Next(st2) => {
                assert((a + b).skip(i + 1) =~= a.skip(i + 1) + b);
                lemma_consume_concat(st2, a.skip(i + 1), b);
            },
        }
    }
}

/// The whole run equals the run of the rest from the state a consumed piece
/// leaves behind.
pub proof fn lemma_dec_from_concat(st: DecStateV, a: Seq<u8>, b: Seq<u8>)
    requires
        consume(st, a) is Some,
    ensures
        dec_from(a + b, st) == dec_from(b, consume(st, a)->Some_0),
    decreases a.len(),
{
    if a.len() == 0 {
        assert(a + b =~= b);
    } else {
        assert(st.phase != Phase::Done);
        let i = find_byte(a, 10);
        assert(0 <= i < a.len());
        crate::bytes::lemma_find_byte_bounds(a, 10);
        lemma_find_byte_prefix(a, b, i);
        assert((a + b).take(i) =~= a.take(i));
        match step_line(st, a.take(i)) {
            StepResV::Fail(e) => {
                assert(false);
            },
            StepResV::Next(st2) => {
                assert((a + b).skip(i + 1) =~= a.skip(i + 1) + b);
                lemma_dec_from_concat(st2, a.skip(i + 1), b);
            },
        }
    }
}

/// Consuming one newline-terminated line is one machine step.
pub proof fn lemma_consume_line(st: DecStateV, l: Seq<u8>)
    requires
        st.phase != Phase::Done,
        text_ok(l),
    ensures
        consume(st, l + seq![10u8]) == match step_line(st, l) {
            StepResV::Next(st2) => Option::Some(st2),
            StepResV::Fail(e) => Option::<DecStateV>::None,
        },
{
    let s = l + seq![10u8];
    assert(s[l.len() as int] == 10);
    assert forall|j: int| 0 <= j < l.len() implies s[j] != 10 by {
        assert(s[j] == l[j]);
    }
    lemma_find_byte_at(s, 10, l.len() as int);
    assert(s.take(l.len() as int) =~= l);
    match step_line(st, l) {
        StepResV::Next(st2) => {
            assert(s.skip(l.len() as int + 1) =~= Seq::<u8>::empty());
            assert(consume(st2, Seq::<u8>::empty()) == Option::Some(st2));
        },
        StepResV::Fail(e) => {},
    }
}


/// The records after folding one family's encoded-and-reparsed samples, in
/// order, into the mapping.
pub open spec fn fold_samples(
    m: Map<u32, RecV>,
    fld: TrackedField,
    nm: Seq<u8>,
    ss: Seq<SampleV>,
) -> Map<u32, RecV>
    decreases ss.len(),
{
    if ss.len() == 0 {
        m
    } else {
        fold_samples(apply_tracked(m, tuple_of(nm, ss[0]), fld), fld, nm, ss.skip(1))
    }
}

/// What one family section contributes to the records: nothing when its
/// sample name is not in the decoder's table, its samples folded in
/// otherwise.
pub open spec fn after_samples_recs(m: Map<u32, RecV>, nm: Seq<u8>, ss: Seq<SampleV>) -> Map<
    u32,
    RecV,
> {
    match tracked_field(nm) {
        Option::None => m,
        Option::Some(fld) => fold_samples(m, fld, nm, ss),
    }
}

/// The records a whole registry state decodes back to.
pub open spec fn fold_families(m: Map<u32, RecV>, fams: Seq<FamilyV>) -> Map<u32, RecV>
    decreases fams.len(),
{
    if fams.len() == 0 {
        m
    } else {
        fold_families(
            after_samples_recs(m, sample_name(fams[0]), fams[0].samples),
            fams.skip(1),
        )
    }
}

/// A family whose sample name the decoder tracks holds counter values only.
pub open spec fn counters_only(f: FamilyV) -> bool {
    tracked_field(sample_name(f)) is Some ==> forall|i: int|
        0 <= i < f.samples.len() ==> (#[trigger] f.samples[i]).value is Count
}

/// Every tracked family in the registry holds counter values only.
pub open spec fn tracked_are_counters(fams: Seq<FamilyV>) -> bool {
    forall|i: int| 0 <= i < fams.len() ==> counters_only(#[trigger] fams[i])
}

proof fn lemma_consume_samples(st: DecStateV, nm: Seq<u8>, ss: Seq<SampleV>)
    requires
        name_ok(nm),
        st.phase is Body,
        forall|i: int| 0 <= i < ss.len() ==> sample_text_ok(#[trigger] ss[i]),
        tracked_field(nm) is Some ==> forall|i: int|
            0 <= i < ss.len() ==> (#[trigger] ss[i]).value is Count,
    ensures
        consume(st, enc_samples(nm, ss)) == Option::Some(
            DecStateV {
                phase: if ss.len() == 0 {
                    st.phase
                } else {
                    Phase::Body(false)
                },
                recs: after_samples_recs(st.recs, nm, ss),
            },
        ),
    decreases ss.len(),
{
    if ss.len() == 0 {
        assert(enc_samples(nm, ss) == Seq::<u8>::empty());
        assert(consume(st, Seq::<u8>::empty()) == Option::Some(st));
        match tracked_field(nm) {
            Option::None => {},
            Option::Some(fld) => {},
        }
        assert(DecStateV { phase: st.phase, recs: after_samples_recs(st.recs, nm, ss) } == st);
    } else {
        let s0 = ss[0];
        assert(sample_text_ok(s0));
        lemma_sample_body_wf(nm, s0);
        lemma_enc_sample_split(nm, s0);
        let t = tuple_of(nm, s0);
        if tracked_field(nm) is Some {
            assert(ss[0].value is Count);
            assert(!t.neg);
        }
        let st1 = DecStateV {
            phase: Phase::Body(false),
            recs: match tracked_field(nm) {
                Option::None => st.recs,
                Option::Some(fld) => apply_tracked(st.recs, t, fld),
            },
        };
        assert(step_line(st, sample_body(nm, s0)) == StepResV::Next(st1));
        lemma_consume_line(st, sample_body(nm, s0));
        assert(consume(st, enc_sample(nm, s0)) == Option::Some(st1));
        lemma_consume_concat(st, enc_sample(nm, s0), enc_samples(nm, ss.skip(1)));
        assert(enc_samples(nm, ss) == enc_sample(nm, s0) + enc_samples(nm, ss.skip(1)));
        assert forall|i: int| 0 <= i < ss.skip(1).len() implies sample_text_ok(
            #[trigger] ss.skip(1)[i],
        ) by {
            assert(ss[i + 1] == ss.skip(1)[i]);
        }
        if tracked_field(nm) is Some {
            assert forall|i: int| 0 <= i < ss.skip(1).len() implies (#[trigger] ss.skip(1)[i]).value
                is Count by {
                assert(ss[i + 1] == ss.skip(1)[i]);
            }
        }
        lemma_consume_samples(st1, nm, ss.skip(1));
        match tracked_field(nm) {
            Option::None => {},
            Option::Some(fld) => {
                assert(fold_samples(st.recs, fld, nm, ss) == fold_samples(
                    apply_tracked(st.recs, t, fld),
                    fld,
                    nm,
                    ss.skip(1),
                ));
            },
        }
    }
}

#[verifier::rlimit(60)]
#[verifier::spinoff_prover]
proof fn lemma_consume_family(st: DecStateV, f: FamilyV)
    requires
        fam_encodable(f),
        counters_only(f),
        st.phase is Idle || st.phase is Body,
    ensures
        consume(st, enc_family(f)) is Some,
        consume(st, enc_family(f))->Some_0.recs == after_samples_recs(
            st.recs,
            sample_name(f),
            f.samples,
        ),
        consume(st, enc_family(f))->Some_0.phase is Body,
{
    lemma_line_splits(f);
    lemma_help_body_wf(f);
    lemma_type_body_wf(f);
    let st1 = DecStateV { phase: Phase::AfterHelp, ..st };
    assert(step_line(st, help_body(f)) == StepResV::Next(st1));
    lemma_consume_line(st, help_body(f));
    assert(consume(st, help_line(f)) == Option::Some(st1));
    let st2 = DecStateV { phase: Phase::Body(true), ..st };
    assert(step_line(st1, type_body(f)) == StepResV::Next(st2));
    lemma_consume_line(st1, type_body(f));
    assert(consume(st1, type_line(f)) == Option::Some(st2));
    let st3 = match f.unit {
        Option::Some(u) => DecStateV { phase: Phase::Body(false), ..st },
        Option::None => st2,
    };
    match f.unit {
        Option::Some(u) => {
            lemma_unit_body_wf(f, u);
            assert(step_line(st2, unit_body(f, u)) == StepResV::Next(st3));
            lemma_consume_line(st2, unit_body(f, u));
            assert(consume(st2, unit_line_opt(f)) == Option::Some(st3));
        },
        Option::None => {
            assert(unit_line_opt(f) == Seq::<u8>::empty());
            assert(consume(st2, unit_line_opt(f)) == Option::Some(st3));
        },
    }
    assert forall|i: int| 0 <= i < f.samples.len() implies sample_text_ok(
        #[trigger] f.samples[i],
    ) by {}
    lemma_full_name_ok(f);
    lemma_consume_samples(st3, sample_name(f), f.samples);
    let st4 = consume(st3, enc_samples(sample_name(f), f.samples))->Some_0;
    lemma_consume_concat(st2, unit_line_opt(f), enc_samples(sample_name(f), f.samples));
    lemma_consume_concat(
        st1,
        type_line(f),
        unit_line_opt(f) + enc_samples(sample_name(f), f.samples),
    );
    lemma_consume_concat(
        st,
        help_line(f),
        type_line(f) + (unit_line_opt(f) + enc_samples(sample_name(f), f.samples)),
    );
    assert(enc_family(f) =~= help_line(f) + (type_line(f) + (unit_line_opt(f) + enc_samples(
        sample_name(f),
        f.samples,
    ))));
    assert(consume(st, enc_family(f)) == Option::Some(st4));
}

proof fn lemma_consume_families(st: DecStateV, fams: Seq<FamilyV>)
    requires
        encodable(fams),
        tracked_are_counters(fams),
        st.phase is Idle || st.phase is Body,
    ensures
        consume(st, enc_families(fams)) is Some,
        consume(st, enc_families(fams))->Some_0.recs == fold_families(st.recs, fams),
        consume(st, enc_families(fams))->Some_0.phase is Idle || consume(
            st,
            enc_families(fams),
        )->Some_0.phase is Body,
    decreases fams.len(),
{
    if fams.len() == 0 {
        assert(enc_families(fams) == Seq::<u8>::empty());
        assert(consume(st, enc_families(fams)) == Option::Some(st));
    } else {
        assert(fam_encodable(fams[0]));
        assert(counters_only(fams[0]));
        lemma_consume_family(st, fams[0]);
        let st1 = consume(st, enc_family(fams[0]))->Some_0;
        lemma_consume_concat(st, enc_family(fams[0]), enc_families(fams.skip(1)));
        assert forall|i: int| 0 <= i < fams.skip(1).len() implies fam_encodable(
            #[trigger] fams.skip(1)[i],
        ) by {
            assert(fams[i + 1] == fams.skip(1)[i]);
        }
        assert forall|i: int| 0 <= i < fams.skip(1).len() implies counters_only(
            #[trigger] fams.skip(1)[i],
        ) by {
            assert(fams[i + 1] == fams.skip(1)[i]);
        }
        lemma_consume_families(st1, fams.skip(1));
        assert(enc_families(fams) == enc_family(fams[0]) + enc_families(fams.skip(1)));
    }
}

/// Law, payload level: decoding what the encoder produced from a registry
/// state succeeds and yields exactly the records folded from the tracked
/// families' samples, in family order then sample order. The one proviso is
/// that a family whose sample name collides with the decoder's counter
/// table must itself be a counter family, since the decoder refuses a
/// negative value under a counter name.
pub proof fn law_round_trip(fams: Seq<FamilyV>)
    requires
        encodable(fams),
        tracked_are_counters(fams),
    ensures
        spec_decode(enc_registry(fams)) == DecOutcomeV::Finished(
            fold_families(Map::empty(), fams),
        ),
{
    let init = init_state();
    lemma_consume_families(init, fams);
    let st2 = consume(init, enc_families(fams))->Some_0;
    assert(enc_registry(fams) =~= enc_families(fams) + (eof_marker() + seq![10u8]));
    lemma_dec_from_concat(init, enc_families(fams), eof_marker() + seq![10u8]);
    let tail = eof_marker() + seq![10u8];
    assert(tail[5] == 10);
    assert forall|j: int| 0 <= j < 5 implies tail[j] != 10 by {
        assert(tail[j] == eof_marker()[j]);
    }
    lemma_find_byte_at(tail, 10, 5);
    assert(tail.take(5) =~= eof_marker());
    assert(classify_line(eof_marker()) == LineClassV::Eof);
    let st3 = DecStateV { phase: Phase::Done, ..st2 };
    assert(step_line(st2, eof_marker()) == StepResV::Next(st3));
    assert(tail.skip(6) =~= Seq::<u8>::empty());
    assert(dec_from(tail, st2) == dec_from(Seq::<u8>::empty(), st3));
    assert(dec_from(Seq::<u8>::empty(), st3) == DecOutcomeV::Finished(st2.recs));
}


/// Any two samples that carry the same entity ID carry the same identity
/// labels, across all families.
pub open spec fn ids_consistent(fams: Seq<FamilyV>) -> bool {
    forall|i1: int, j1: int, i2: int, j2: int|
        #![trigger fams[i1].samples[j1], fams[i2].samples[j2]]
        0 <= i1 < fams.len() && 0 <= j1 < fams[i1].samples.len() && 0 <= i2 < fams.len() && 0 <= j2
            < fams[i2].samples.len() && fams[i1].samples[j1].labels.id
            == fams[i2].samples[j2].labels.id ==> fams[i1].samples[j1].labels.type_text
            == fams[i2].samples[j2].labels.type_text && fams[i1].samples[j1].labels.name
            == fams[i2].samples[j2].labels.name
}

/// No two families carry the same tracked sample name.
pub open spec fn tracked_names_distinct(fams: Seq<FamilyV>) -> bool {
    forall|i: int, j: int|
        #![trigger fams[i], fams[j]]
        0 <= i < j < fams.len() && tracked_field(sample_name(fams[i])) is Some && tracked_field(
            sample_name(fams[j]),
        ) is Some ==> sample_name(fams[i]) != sample_name(fams[j])
}

/// Distinct tracked names feed distinct record fields.
proof fn lemma_tracked_field_injective(n1: Seq<u8>, n2: Seq<u8>)
    requires
        tracked_field(n1) is Some,
        tracked_field(n2) is Some,
        n1 != n2,
    ensures
        tracked_field(n1) != tracked_field(n2),
{
    assert(crate::decode::trk_run_time().len() == 23);
    assert(crate::decode::trk_execution().len() == 24);
    assert(crate::decode::trk_uptime().len() == 21);
}

proof fn lemma_rec_set_commute(r: RecV, f1: TrackedField, v1: u64, f2: TrackedField, v2: u64)
    requires
        f1 != f2,
    ensures
        crate::decode::rec_set(crate::decode::rec_set(r, f1, v1), f2, v2)
            == crate::decode::rec_set(crate::decode::rec_set(r, f2, v2), f1, v1),
{
}

proof fn lemma_apply_apply_commute(
    m: Map<u32, RecV>,
    t1: SampleTupleV,
    f1: TrackedField,
    t2: SampleTupleV,
    f2: TrackedField,
)
    requires
        t1.id == t2.id ==> f1 != f2 && t1.type_text == t2.type_text && t1.name == t2.name,
    ensures
        apply_tracked(apply_tracked(m, t1, f1), t2, f2) == apply_tracked(
            apply_tracked(m, t2, f2),
            t1,
            f1,
        ),
{
    let lhs = apply_tracked(apply_tracked(m, t1, f1), t2, f2);
    let rhs = apply_tracked(apply_tracked(m, t2, f2), t1, f1);
    if t1.id != t2.id {
        assert(lhs =~= rhs);
    } else {
        lemma_rec_set_commute(
            if m.dom().contains(t1.id) {
                m[t1.id]
            } else {
                crate::decode::rec_init(t1)
            },
            f1,
            t1.value,
            f2,
            t2.value,
        );
        assert(crate::decode::rec_init(t1) == crate::decode::rec_init(t2));
        assert(lhs =~= rhs);
    }
}

proof fn lemma_apply_fold_commute(
    m: Map<u32, RecV>,
    t: SampleTupleV,
    f: TrackedField,
    fld2: TrackedField,
    nm2: Seq<u8>,
    ss: Seq<SampleV>,
)
    requires
        f != fld2,
        forall|j: int|
            0 <= j < ss.len() && (#[trigger] ss[j]).labels.id == t.id ==> ss[j].labels.type_text
                == t.type_text && ss[j].labels.name == t.name,
    ensures
        fold_samples(apply_tracked(m, t, f), fld2, nm2, ss) == apply_tracked(
            fold_samples(m, fld2, nm2, ss),
            t,
            f,
        ),
    decreases ss.len(),
{
    if ss.len() == 0 {
    } else {
        let t0 = tuple_of(nm2, ss[0]);
        lemma_apply_apply_commute(m, t, f, t0, fld2);
        assert forall|j: int|
            0 <= j < ss.skip(1).len() && (#[trigger] ss.skip(1)[j]).labels.id == t.id implies ss.skip(
            1,
        )[j].labels.type_text == t.type_text && ss.skip(1)[j].labels.name == t.name by {
            assert(ss[j + 1] == ss.skip(1)[j]);
        }
        lemma_apply_fold_commute(apply_tracked(m, t0, fld2), t, f, fld2, nm2, ss.skip(1));
    }
}

proof fn lemma_fold_fold_commute(
    m: Map<u32, RecV>,
    fld1: TrackedField,
    nm1: Seq<u8>,
    s1: Seq<SampleV>,
    fld2: TrackedField,
    nm2: Seq<u8>,
    s2: Seq<SampleV>,
)
    requires
        fld1 != fld2,
        forall|j1: int, j2: int|
            #![trigger s1[j1], s2[j2]]
            0 <= j1 < s1.len() && 0 <= j2 < s2.len() && s1[j1].labels.id == s2[j2].labels.id
                ==> s1[j1].labels.type_text == s2[j2].labels.type_text && s1[j1].labels.name
                == s2[j2].labels.name,
    ensures
        fold_samples(fold_samples(m, fld1, nm1, s1), fld2, nm2, s2) == fold_samples(
            fold_samples(m, fld2, nm2, s2),
            fld1,
            nm1,
            s1,
        ),
    decreases s1.len(),
{
    if s1.len() == 0 {
    } else {
        let t0 = tuple_of(nm1, s1[0]);
        assert forall|j: int|
            0 <= j < s2.len() && (#[trigger] s2[j]).labels.id == t0.id implies s2[j].labels.type_text
            == t0.type_text && s2[j].labels.name == t0.name by {
            assert(s1[0].labels.id == s2[j].labels.id);
        }
        assert forall|j1: int, j2: int|
            #![trigger s1.skip(1)[j1], s2[j2]]
            0 <= j1 < s1.skip(1).len() && 0 <= j2 < s2.len() && s1.skip(1)[j1].labels.id
                == s2[j2].labels.id implies s1.skip(1)[j1].labels.type_text
            == s2[j2].labels.type_text && s1.skip(1)[j1].labels.name == s2[j2].labels.name by {
            assert(s1[j1 + 1] == s1.skip(1)[j1]);
        }
        lemma_fold_fold_commute(
            apply_tracked(m, t0, fld1),
            fld1,
            nm1,
            s1.skip(1),
            fld2,
            nm2,
            s2,
        );
        lemma_apply_fold_commute(m, t0, fld1, fld2, nm2, s2);
    }
}

proof fn lemma_family_commute(m: Map<u32, RecV>, fa: FamilyV, fb: FamilyV)
    requires
        tracked_field(sample_name(fa)) is Some && tracked_field(sample_name(fb)) is Some
            ==> sample_name(fa) != sample_name(fb),
        forall|j1: int, j2: int|
            #![trigger fa.samples[j1], fb.samples[j2]]
            0 <= j1 < fa.samples.len() && 0 <= j2 < fb.samples.len() && fa.samples[j1].labels.id
                == fb.samples[j2].labels.id ==> fa.samples[j1].labels.type_text
                == fb.samples[j2].labels.type_text && fa.samples[j1].labels.name
                == fb.samples[j2].labels.name,
    ensures
        after_samples_recs(
            after_samples_recs(m, sample_name(fa), fa.samples),
            sample_name(fb),
            fb.samples,
        ) == after_samples_recs(
            after_samples_recs(m, sample_name(fb), fb.samples),
            sample_name(fa),
            fa.samples,
        ),
{
    match tracked_field(sample_name(fa)) {
        Option::None => {},
        Option::Some(flda) => {
            match tracked_field(sample_name(fb)) {
                Option::None => {},
                Option::Some(fldb) => {
                    lemma_tracked_field_injective(sample_name(fa), sample_name(fb));
                    lemma_fold_fold_commute(
                        m,
                        flda,
                        sample_name(fa),
                        fa.samples,
                        fldb,
                        sample_name(fb),
                        fb.samples,
                    );
                },
            }
        },
    }
}


proof fn lemma_fold_families_swap(m: Map<u32, RecV>, fams: Seq<FamilyV>, i: int)
    requires
        0 <= i,
        i + 1 < fams.len(),
        ids_consistent(fams),
        tracked_names_distinct(fams),
    ensures
        fold_families(m, fams.update(i, fams[i + 1]).update(i + 1, fams[i])) == fold_families(
            m,
            fams,
        ),
    decreases i,
{
    let sw = fams.update(i, fams[i + 1]).update(i + 1, fams[i]);
    if i == 0 {
        let f0 = fams[0];
        let f1 = fams[1];
        assert(sw[0] == f1 && sw[1] == f0);
        assert(fams.skip(1)[0] == fams[1]);
        assert(fams.skip(1).skip(1) =~= fams.skip(2));
        assert(sw.skip(1)[0] == fams[0]);
        assert(sw.skip(1).skip(1) =~= fams.skip(2));
        assert forall|j1: int, j2: int|
            #![trigger f0.samples[j1], f1.samples[j2]]
            0 <= j1 < f0.samples.len() && 0 <= j2 < f1.samples.len() && f0.samples[j1].labels.id
                == f1.samples[j2].labels.id implies f0.samples[j1].labels.type_text
            == f1.samples[j2].labels.type_text && f0.samples[j1].labels.name
            == f1.samples[j2].labels.name by {
            assert(fams[0].samples[j1] == f0.samples[j1]);
            assert(fams[1].samples[j2] == f1.samples[j2]);
        }
        lemma_family_commute(m, f0, f1);
        let m0 = after_samples_recs(m, sample_name(f0), f0.samples);
        let x = after_samples_recs(m0, sample_name(f1), f1.samples);
        assert(fold_families(m, fams) == fold_families(m0, fams.skip(1)));
        assert(fold_families(m0, fams.skip(1)) == fold_families(
            after_samples_recs(
                m0,
                sample_name(fams.skip(1)[0]),
                fams.skip(1)[0].samples,
            ),
            fams.skip(1).skip(1),
        ));
        assert(fold_families(m, fams) == fold_families(x, fams.skip(2)));
        let n0 = after_samples_recs(m, sample_name(f1), f1.samples);
        let y = after_samples_recs(n0, sample_name(f0), f0.samples);
        assert(fold_families(m, sw) == fold_families(n0, sw.skip(1)));
        assert(fold_families(n0, sw.skip(1)) == fold_families(
            after_samples_recs(n0, sample_name(sw.skip(1)[0]), sw.skip(1)[0].samples),
            sw.skip(1).skip(1),
        ));
        assert(fold_families(m, sw) == fold_families(y, fams.skip(2)));
        assert(x == y);
    } else {
        assert(sw[0] == fams[0]);
        let rest = fams.skip(1);
        assert(sw.skip(1) =~= rest.update(i - 1, rest[i]).update(i, rest[i - 1]));
        assert forall|i1: int, j1: int, i2: int, j2: int|
            #![trigger rest[i1].samples[j1], rest[i2].samples[j2]]
            0 <= i1 < rest.len() && 0 <= j1 < rest[i1].samples.len() && 0 <= i2 < rest.len() && 0
                <= j2 < rest[i2].samples.len() && rest[i1].samples[j1].labels.id
                == rest[i2].samples[j2].labels.id implies rest[i1].samples[j1].labels.type_text
            == rest[i2].samples[j2].labels.type_text && rest[i1].samples[j1].labels.name
            == rest[i2].samples[j2].labels.name by {
            assert(fams[i1 + 1].samples[j1] == rest[i1].samples[j1]);
            assert(fams[i2 + 1].samples[j2] == rest[i2].samples[j2]);
        }
        assert forall|i1: int, i2: int|
            #![trigger rest[i1], rest[i2]]
            0 <= i1 < i2 < rest.len() && tracked_field(sample_name(rest[i1])) is Some
                && tracked_field(sample_name(rest[i2])) is Some implies sample_name(rest[i1])
            != sample_name(rest[i2]) by {
            assert(fams[i1 + 1] == rest[i1]);
            assert(fams[i2 + 1] == rest[i2]);
        }
        lemma_fold_families_swap(
            after_samples_recs(m, sample_name(fams[0]), fams[0].samples),
            rest,
            i - 1,
        );
    }
}

/// Law: shuffling the order of family sections in a payload does not change
/// the decoded result. Swapping any two adjacent sections leaves the
/// decoded records untouched, and every reordering is a chain of such
/// swaps. The provisos: samples agreeing on an entity ID agree on its
/// identity labels, and no two families share a tracked sample name.
pub proof fn law_section_order_independent(fams: Seq<FamilyV>, i: int)
    requires
        encodable(fams),
        tracked_are_counters(fams),
        ids_consistent(fams),
        tracked_names_distinct(fams),
        0 <= i,
        i + 1 < fams.len(),
    ensures
        spec_decode(enc_registry(fams.update(i, fams[i + 1]).update(i + 1, fams[i])))
            == spec_decode(enc_registry(fams)),
{
    let sw = fams.update(i, fams[i + 1]).update(i + 1, fams[i]);
    assert forall|k: int| 0 <= k < sw.len() implies fam_encodable(#[trigger] sw[k]) by {
        assert(fam_encodable(fams[k]));
        assert(fam_encodable(fams[i]) && fam_encodable(fams[i + 1]));
    }
    assert forall|k: int| 0 <= k < sw.len() implies counters_only(#[trigger] sw[k]) by {
        assert(counters_only(fams[k]));
        assert(counters_only(fams[i]) && counters_only(fams[i + 1]));
    }
    law_round_trip(fams);
    law_round_trip(sw);
    lemma_fold_families_swap(Map::empty(), fams, i);
}


/// The tracked field of a reconstructed record.
pub open spec fn rec_get(r: RecV, f: TrackedField) -> u64 {
    match f {
        TrackedField::RunTime => r.run_time_ns,
        TrackedField::RunCount => r.run_cnt,
        TrackedField::Uptime => r.uptime_ns,
    }
}

/// The record for `id`, if present, carries that ID, the given identity
/// labels, and zeroed previous values.
pub open spec fn good_at(m: Map<u32, RecV>, id: u32, lt: Seq<u8>, ln: Seq<u8>) -> bool {
    m.dom().contains(id) ==> m[id].id == id && m[id].type_text == lt && m[id].name == ln
        && m[id].prev_run_time_ns == 0 && m[id].prev_run_cnt == 0
}

proof fn lemma_fold_samples_props(
    m: Map<u32, RecV>,
    fld: TrackedField,
    nm: Seq<u8>,
    ss: Seq<SampleV>,
    id: u32,
    lt: Seq<u8>,
    ln: Seq<u8>,
)
    requires
        forall|j: int|
            0 <= j < ss.len() && (#[trigger] ss[j]).labels.id == id ==> ss[j].labels.type_text
                == lt && ss[j].labels.name == ln,
        forall|j1: int, j2: int|
            #![trigger ss[j1], ss[j2]]
            0 <= j1 < j2 < ss.len() ==> ss[j1].labels.id != ss[j2].labels.id,
        good_at(m, id, lt, ln),
    ensures
        fold_samples(m, fld, nm, ss).dom().contains(id) == (m.dom().contains(id) || exists|j: int|
            0 <= j < ss.len() && (#[trigger] ss[j]).labels.id == id),
        good_at(fold_samples(m, fld, nm, ss), id, lt, ln),
        forall|j: int|
            0 <= j < ss.len() && (#[trigger] ss[j]).labels.id == id ==> rec_get(
                fold_samples(m, fld, nm, ss)[id],
                fld,
            ) == value_mag(ss[j].value),
        !(exists|j: int| 0 <= j < ss.len() && (#[trigger] ss[j]).labels.id == id) && m.dom().contains(
            id,
        ) ==> fold_samples(m, fld, nm, ss)[id] == m[id],
        forall|f2: TrackedField|
            f2 != fld && fold_samples(m, fld, nm, ss).dom().contains(id) ==> #[trigger] rec_get(
                fold_samples(m, fld, nm, ss)[id],
                f2,
            ) == if m.dom().contains(id) {
                rec_get(m[id], f2)
            } else {
                0u64
            },
    decreases ss.len(),
{
    if ss.len() == 0 {
    } else {
        let t0 = tuple_of(nm, ss[0]);
        let m1 = apply_tracked(m, t0, fld);
        assert forall|j: int|
            0 <= j < ss.skip(1).len() && (#[trigger] ss.skip(1)[j]).labels.id == id implies ss.skip(
            1,
        )[j].labels.type_text == lt && ss.skip(1)[j].labels.name == ln by {
            assert(ss[j + 1] == ss.skip(1)[j]);
        }
        assert forall|j1: int, j2: int|
            #![trigger ss.skip(1)[j1], ss.skip(1)[j2]]
            0 <= j1 < j2 < ss.skip(1).len() implies ss.skip(1)[j1].labels.id != ss.skip(
            1,
        )[j2].labels.id by {
            assert(ss[j1 + 1] == ss.skip(1)[j1]);
            assert(ss[j2 + 1] == ss.skip(1)[j2]);
        }
        if t0.id == id {
            assert(ss[0].labels.id == id);
            assert(good_at(m1, id, lt, ln));
        } else {
            assert(m1.dom().contains(id) == m.dom().contains(id));
            if m.dom().contains(id) {
                assert(m1[id] == m[id]);
            }
        }
        lemma_fold_samples_props(m1, fld, nm, ss.skip(1), id, lt, ln);
        let r = fold_samples(m, fld, nm, ss);
        assert(r == fold_samples(m1, fld, nm, ss.skip(1)));
        assert forall|j1: int|
            0 <= j1 < ss.skip(1).len() implies (#[trigger] ss.skip(1)[j1]).labels.id
            != ss[0].labels.id by {
            assert(ss[j1 + 1] == ss.skip(1)[j1]);
        }
        if ss[0].labels.id == id {
            assert(!(exists|j: int|
                0 <= j < ss.skip(1).len() && (#[trigger] ss.skip(1)[j]).labels.id == id));
            assert(m1.dom().contains(id));
            assert(r[id] == m1[id]);
            assert(rec_get(m1[id], fld) == t0.value);
            assert(t0.value == value_mag(ss[0].value));
            assert forall|j: int|
                0 <= j < ss.len() && (#[trigger] ss[j]).labels.id == id implies rec_get(
                r[id],
                fld,
            ) == value_mag(ss[j].value) by {
                if j > 0 {
                    assert(ss.skip(1)[j - 1] == ss[j]);
                    assert(false);
                }
            }
        } else {
            assert forall|j: int|
                0 <= j < ss.len() && (#[trigger] ss[j]).labels.id == id implies rec_get(
                r[id],
                fld,
            ) == value_mag(ss[j].value) by {
                assert(j != 0);
                assert(ss.skip(1)[j - 1] == ss[j]);
            }
            if !(exists|j: int| 0 <= j < ss.len() && (#[trigger] ss[j]).labels.id == id) {
                assert(!(exists|j: int|
                    0 <= j < ss.skip(1).len() && (#[trigger] ss.skip(1)[j]).labels.id == id)) by {
                    if exists|j: int|
                        0 <= j < ss.skip(1).len() && (#[trigger] ss.skip(1)[j]).labels.id == id {
                        let j = choose|j: int|
                            0 <= j < ss.skip(1).len() && (#[trigger] ss.skip(1)[j]).labels.id
                                == id;
                        assert(ss[j + 1].labels.id == id);
                    }
                }
            }
            if exists|j: int| 0 <= j < ss.len() && (#[trigger] ss[j]).labels.id == id {
                let j = choose|j: int| 0 <= j < ss.len() && (#[trigger] ss[j]).labels.id == id;
                assert(ss.skip(1)[j - 1] == ss[j]);
            }
        }
    }
}


/// Every sample for `id` in a tracked family carries the identity `(lt, ln)`.
pub open spec fn id_labels_are(fams: Seq<FamilyV>, id: u32, lt: Seq<u8>, ln: Seq<u8>) -> bool {
    forall|k: int, j: int|
        #![trigger fams[k].samples[j]]
        0 <= k < fams.len() && tracked_field(sample_name(fams[k])) is Some && 0 <= j
            < fams[k].samples.len() && fams[k].samples[j].labels.id == id
            ==> fams[k].samples[j].labels.type_text == lt && fams[k].samples[j].labels.name == ln
}

/// Within each tracked family, no two samples carry the same entity ID.
pub open spec fn tracked_fam_ids_distinct(fams: Seq<FamilyV>) -> bool {
    forall|k: int, j1: int, j2: int|
        #![trigger fams[k].samples[j1], fams[k].samples[j2]]
        0 <= k < fams.len() && tracked_field(sample_name(fams[k])) is Some && 0 <= j1 < j2
            < fams[k].samples.len() ==> fams[k].samples[j1].labels.id
            != fams[k].samples[j2].labels.id
}

/// Some tracked family holds a sample for `id`.
pub open spec fn has_tracked_sample(fams: Seq<FamilyV>, id: u32) -> bool {
    exists|k: int, j: int|
        #![trigger fams[k].samples[j]]
        0 <= k < fams.len() && tracked_field(sample_name(fams[k])) is Some && 0 <= j
            < fams[k].samples.len() && fams[k].samples[j].labels.id == id
}

/// The family feeding `fld` holds a sample for `id`.
pub open spec fn some_fam_sets(fams: Seq<FamilyV>, fld: TrackedField, id: u32) -> bool {
    exists|k: int, j: int|
        #![trigger fams[k].samples[j]]
        0 <= k < fams.len() && tracked_field(sample_name(fams[k])) == Option::Some(fld) && 0 <= j
            < fams[k].samples.len() && fams[k].samples[j].labels.id == id
}

#[verifier::rlimit(60)]
#[verifier::spinoff_prover]
proof fn lemma_fold_families_props(
    m: Map<u32, RecV>,
    fams: Seq<FamilyV>,
    id: u32,
    lt: Seq<u8>,
    ln: Seq<u8>,
)
    requires
        id_labels_are(fams, id, lt, ln),
        tracked_fam_ids_distinct(fams),
        tracked_names_distinct(fams),
        good_at(m, id, lt, ln),
    ensures
        fold_families(m, fams).dom().contains(id) == (m.dom().contains(id) || has_tracked_sample(
            fams,
            id,
        )),
        good_at(fold_families(m, fams), id, lt, ln),
        forall|k: int, j: int|
            #![trigger fams[k].samples[j]]
            0 <= k < fams.len() && tracked_field(sample_name(fams[k])) is Some && 0 <= j
                < fams[k].samples.len() && fams[k].samples[j].labels.id == id ==> rec_get(
                fold_families(m, fams)[id],
                tracked_field(sample_name(fams[k]))->Some_0,
            ) == value_mag(fams[k].samples[j].value),
        forall|fld: TrackedField|
            !some_fam_sets(fams, fld, id) && fold_families(m, fams).dom().contains(id)
                ==> #[trigger] rec_get(fold_families(m, fams)[id], fld) == if m.dom().contains(
                id,
            ) {
                rec_get(m[id], fld)
            } else {
                0u64
            },
    decreases fams.len(),
{
    if fams.len() == 0 {
        assert(!has_tracked_sample(fams, id));
    } else {
        let f0 = fams[0];
        let nm0 = sample_name(f0);
        let m1 = after_samples_recs(m, nm0, f0.samples);
        let rest = fams.skip(1);
        assert forall|k: int, j: int|
            #![trigger rest[k].samples[j]]
            0 <= k < rest.len() && tracked_field(sample_name(rest[k])) is Some && 0 <= j
                < rest[k].samples.len() && rest[k].samples[j].labels.id == id implies rest[k].samples[j].labels.type_text
            == lt && rest[k].samples[j].labels.name == ln by {
            assert(fams[k + 1].samples[j] == rest[k].samples[j]);
        }
        assert forall|k: int, j1: int, j2: int|
            #![trigger rest[k].samples[j1], rest[k].samples[j2]]
            0 <= k < rest.len() && tracked_field(sample_name(rest[k])) is Some && 0 <= j1 < j2
                < rest[k].samples.len() implies rest[k].samples[j1].labels.id
            != rest[k].samples[j2].labels.id by {
            assert(fams[k + 1].samples[j1] == rest[k].samples[j1]);
            assert(fams[k + 1].samples[j2] == rest[k].samples[j2]);
        }
        assert forall|i1: int, i2: int|
            #![trigger rest[i1], rest[i2]]
            0 <= i1 < i2 < rest.len() && tracked_field(sample_name(rest[i1])) is Some
                && tracked_field(sample_name(rest[i2])) is Some implies sample_name(rest[i1])
            != sample_name(rest[i2]) by {
            assert(fams[i1 + 1] == rest[i1]);
            assert(fams[i2 + 1] == rest[i2]);
        }
        match tracked_field(nm0) {
            Option::None => {
                assert(m1 == m);
            },
            Option::Some(fld0) => {
                assert forall|j: int|
                    0 <= j < f0.samples.len() && (#[trigger] f0.samples[j]).labels.id
                        == id implies f0.samples[j].labels.type_text == lt
                    && f0.samples[j].labels.name == ln by {
                    assert(fams[0].samples[j] == f0.samples[j]);
                }
                assert forall|j1: int, j2: int|
                    #![trigger f0.samples[j1], f0.samples[j2]]
                    0 <= j1 < j2 < f0.samples.len() implies f0.samples[j1].labels.id
                    != f0.samples[j2].labels.id by {
                    assert(fams[0].samples[j1] == f0.samples[j1]);
                    assert(fams[0].samples[j2] == f0.samples[j2]);
                }
                lemma_fold_samples_props(m, fld0, nm0, f0.samples, id, lt, ln);
            },
        }
        lemma_fold_families_props(m1, rest, id, lt, ln);
        let r = fold_families(m, fams);
        assert(r == fold_families(m1, rest));
        // Membership of `id` in the first family's samples.
        let in_f0 = tracked_field(nm0) is Some && exists|j: int|
            0 <= j < f0.samples.len() && (#[trigger] f0.samples[j]).labels.id == id;
        assert(m1.dom().contains(id) == (m.dom().contains(id) || in_f0));
        // Combine the domain clause.
        assert(has_tracked_sample(fams, id) == (in_f0 || has_tracked_sample(rest, id))) by {
            if in_f0 {
                let j = choose|j: int|
                    0 <= j < f0.samples.len() && (#[trigger] f0.samples[j]).labels.id == id;
                assert(fams[0].samples[j].labels.id == id);
            }
            if has_tracked_sample(rest, id) {
                let (k, j) = choose|k: int, j: int|
                    #![trigger rest[k].samples[j]]
                    0 <= k < rest.len() && tracked_field(sample_name(rest[k])) is Some && 0 <= j
                        < rest[k].samples.len() && rest[k].samples[j].labels.id == id;
                assert(fams[k + 1].samples[j].labels.id == id);
                assert(fams[k + 1] == rest[k]);
            }
            if has_tracked_sample(fams, id) {
                let (k, j) = choose|k: int, j: int|
                    #![trigger fams[k].samples[j]]
                    0 <= k < fams.len() && tracked_field(sample_name(fams[k])) is Some && 0 <= j
                        < fams[k].samples.len() && fams[k].samples[j].labels.id == id;
                if k == 0 {
                    assert(f0.samples[j] == fams[0].samples[j]);
                    assert(in_f0);
                } else {
                    assert(rest[k - 1].samples[j] == fams[k].samples[j]);
                    assert(rest[k - 1] == fams[k]);
                    assert(has_tracked_sample(rest, id));
                }
            }
        }
        // Field clause for witnesses.
        assert forall|k: int, j: int|
            #![trigger fams[k].samples[j]]
            0 <= k < fams.len() && tracked_field(sample_name(fams[k])) is Some && 0 <= j
                < fams[k].samples.len() && fams[k].samples[j].labels.id == id implies rec_get(
            r[id],
            tracked_field(sample_name(fams[k]))->Some_0,
        ) == value_mag(fams[k].samples[j].value) by {
            if k == 0 {
                let fld0 = tracked_field(nm0)->Some_0;
                assert(f0.samples[j] == fams[0].samples[j]);
                assert(rec_get(m1[id], fld0) == value_mag(f0.samples[j].value));
                assert(m1.dom().contains(id));
                assert(!some_fam_sets(rest, fld0, id)) by {
                    if some_fam_sets(rest, fld0, id) {
                        let (k2, j2) = choose|k2: int, j2: int|
                            #![trigger rest[k2].samples[j2]]
                            0 <= k2 < rest.len() && tracked_field(sample_name(rest[k2]))
                                == Option::Some(fld0) && 0 <= j2 < rest[k2].samples.len()
                                && rest[k2].samples[j2].labels.id == id;
                        assert(fams[k2 + 1] == rest[k2]);
                        assert(sample_name(fams[0]) != sample_name(fams[k2 + 1]));
                        lemma_tracked_field_injective(
                            sample_name(fams[0]),
                            sample_name(fams[k2 + 1]),
                        );
                    }
                }
                assert(rec_get(r[id], fld0) == rec_get(m1[id], fld0));
            } else {
                assert(rest[k - 1].samples[j] == fams[k].samples[j]);
                assert(rest[k - 1] == fams[k]);
            }
        }
        // Default clause.
        assert forall|fld: TrackedField|
            !some_fam_sets(fams, fld, id) && r.dom().contains(id) implies #[trigger] rec_get(
            r[id],
            fld,
        ) == if m.dom().contains(id) {
            rec_get(m[id], fld)
        } else {
            0u64
        } by {
            assert(!some_fam_sets(rest, fld, id)) by {
                if some_fam_sets(rest, fld, id) {
                    let (k2, j2) = choose|k2: int, j2: int|
                        #![trigger rest[k2].samples[j2]]
                        0 <= k2 < rest.len() && tracked_field(sample_name(rest[k2]))
                            == Option::Some(fld) && 0 <= j2 < rest[k2].samples.len()
                            && rest[k2].samples[j2].labels.id == id;
                    assert(fams[k2 + 1].samples[j2] == rest[k2].samples[j2]);
                    assert(fams[k2 + 1] == rest[k2]);
                    assert(some_fam_sets(fams, fld, id));
                }
            }
            assert(rec_get(r[id], fld) == if m1.dom().contains(id) {
                rec_get(m1[id], fld)
            } else {
                0u64
            });
            match tracked_field(nm0) {
                Option::None => {},
                Option::Some(fld0) => {
                    if fld0 == fld {
                        // The first family feeds this field but holds no
                        // sample for this ID.
                        assert(!in_f0) by {
                            if in_f0 {
                                let j = choose|j: int|
                                    0 <= j < f0.samples.len() && (#[trigger] f0.samples[j]).labels.id
                                        == id;
                                assert(fams[0].samples[j].labels.id == id);
                                assert(some_fam_sets(fams, fld, id));
                            }
                        }
                        if m.dom().contains(id) {
                            assert(m1[id] == m[id]);
                        }
                    } else {
                        if m1.dom().contains(id) {
                            assert(rec_get(m1[id], fld) == if m.dom().contains(id) {
                                rec_get(m[id], fld)
                            } else {
                                0u64
                            });
                        }
                    }
                },
            }
        }
    }
}


/// Law, record level: decoding an encoded registry state gives every
/// tracked sample's entity a record carrying that sample's ID and identity
/// labels, zeroed previous values, and the sample's value in the field its
/// family feeds.
pub proof fn law_round_trip_records(fams: Seq<FamilyV>, k: int, j: int)
    requires
        encodable(fams),
        tracked_are_counters(fams),
        ids_consistent(fams),
        tracked_names_distinct(fams),
        tracked_fam_ids_distinct(fams),
        0 <= k < fams.len(),
        tracked_field(sample_name(fams[k])) is Some,
        0 <= j < fams[k].samples.len(),
    ensures
        ({
            let id = fams[k].samples[j].labels.id;
            let m = fold_families(Map::empty(), fams);
            &&& spec_decode(enc_registry(fams)) == DecOutcomeV::Finished(m)
            &&& m.dom().contains(id)
            &&& m[id].id == id
            &&& m[id].type_text == fams[k].samples[j].labels.type_text
            &&& m[id].name == fams[k].samples[j].labels.name
            &&& m[id].prev_run_time_ns == 0
            &&& m[id].prev_run_cnt == 0
            &&& rec_get(m[id], tracked_field(sample_name(fams[k]))->Some_0) == value_mag(
                fams[k].samples[j].value,
            )
        }),
{
    law_round_trip(fams);
    let id = fams[k].samples[j].labels.id;
    let lt = fams[k].samples[j].labels.type_text;
    let ln = fams[k].samples[j].labels.name;
    assert forall|k2: int, j2: int|
        #![trigger fams[k2].samples[j2]]
        0 <= k2 < fams.len() && tracked_field(sample_name(fams[k2])) is Some && 0 <= j2
            < fams[k2].samples.len() && fams[k2].samples[j2].labels.id == id implies fams[k2].samples[j2].labels.type_text
        == lt && fams[k2].samples[j2].labels.name == ln by {
        assert(fams[k].samples[j].labels.id == fams[k2].samples[j2].labels.id);
    }
    lemma_fold_families_props(Map::empty(), fams, id, lt, ln);
}

/// Law, cardinality level: the decoded records hold exactly the entity IDs
/// that appear in some tracked family's samples, one record each. With N
/// distinct label sets there are N distinct IDs and so N records.
pub proof fn law_decoded_ids(fams: Seq<FamilyV>, id: u32)
    requires
        encodable(fams),
        tracked_are_counters(fams),
        ids_consistent(fams),
        tracked_names_distinct(fams),
        tracked_fam_ids_distinct(fams),
    ensures
        spec_decode(enc_registry(fams)) == DecOutcomeV::Finished(fold_families(Map::empty(), fams)),
        fold_families(Map::empty(), fams).dom().contains(id) == has_tracked_sample(fams, id),
{
    law_round_trip(fams);
    if has_tracked_sample(fams, id) {
        let (k, j) = choose|k: int, j: int|
            #![trigger fams[k].samples[j]]
            0 <= k < fams.len() && tracked_field(sample_name(fams[k])) is Some && 0 <= j
                < fams[k].samples.len() && fams[k].samples[j].labels.id == id;
        let lt = fams[k].samples[j].labels.type_text;
        let ln = fams[k].samples[j].labels.name;
        assert forall|k2: int, j2: int|
            #![trigger fams[k2].samples[j2]]
            0 <= k2 < fams.len() && tracked_field(sample_name(fams[k2])) is Some && 0 <= j2
                < fams[k2].samples.len() && fams[k2].samples[j2].labels.id == id implies fams[k2].samples[j2].labels.type_text
            == lt && fams[k2].samples[j2].labels.name == ln by {
            assert(fams[k].samples[j].labels.id == fams[k2].samples[j2].labels.id);
        }
        lemma_fold_families_props(Map::empty(), fams, id, lt, ln);
    } else {
        lemma_fold_families_props(Map::empty(), fams, id, Seq::empty(), Seq::empty());
    }
}

/// Law, default level: a decoded record's field that no family fed is zero.
pub proof fn law_decoded_field_default(fams: Seq<FamilyV>, id: u32, fld: TrackedField)
    requires
        encodable(fams),
        tracked_are_counters(fams),
        ids_consistent(fams),
        tracked_names_distinct(fams),
        tracked_fam_ids_distinct(fams),
        !some_fam_sets(fams, fld, id),
        fold_families(Map::empty(), fams).dom().contains(id),
    ensures
        rec_get(fold_families(Map::empty(), fams)[id], fld) == 0,
{
    if has_tracked_sample(fams, id) {
        let (k, j) = choose|k: int, j: int|
            #![trigger fams[k].samples[j]]
            0 <= k < fams.len() && tracked_field(sample_name(fams[k])) is Some && 0 <= j
                < fams[k].samples.len() && fams[k].samples[j].labels.id == id;
        let lt = fams[k].samples[j].labels.type_text;
        let ln = fams[k].samples[j].labels.name;
        assert forall|k2: int, j2: int|
            #![trigger fams[k2].samples[j2]]
            0 <= k2 < fams.len() && tracked_field(sample_name(fams[k2])) is Some && 0 <= j2
                < fams[k2].samples.len() && fams[k2].samples[j2].labels.id == id implies fams[k2].samples[j2].labels.type_text
            == lt && fams[k2].samples[j2].labels.name == ln by {
            assert(fams[k].samples[j].labels.id == fams[k2].samples[j2].labels.id);
        }
        lemma_fold_families_props(Map::empty(), fams, id, lt, ln);
    } else {
        lemma_fold_families_props(Map::empty(), fams, id, Seq::empty(), Seq::empty());
    }
}

proof fn lemma_fold_families_no_samples(m: Map<u32, RecV>, fams: Seq<FamilyV>)
    requires
        forall|i: int| 0 <= i < fams.len() ==> (#[trigger] fams[i]).samples.len() == 0,
    ensures
        fold_families(m, fams) == m,
    decreases fams.len(),
{
    if fams.len() > 0 {
        assert(fams[0].samples.len() == 0);
        match tracked_field(sample_name(fams[0])) {
            Option::None => {},
            Option::Some(fld) => {
                assert(fold_samples(m, fld, sample_name(fams[0]), fams[0].samples) == m);
            },
        }
        assert forall|i: int| 0 <= i < fams.skip(1).len() implies (#[trigger] fams.skip(
            1,
        )[i]).samples.len() == 0 by {
            assert(fams[i + 1] == fams.skip(1)[i]);
        }
        lemma_fold_families_no_samples(m, fams.skip(1));
    }
}

/// Law: a second export without an intervening collection decodes to no
/// records at all. Export clears the families, and the encoding of the
/// cleared state holds no sample lines.
pub proof fn law_second_export_decodes_empty(fams: Seq<FamilyV>)
    requires
        encodable(fams),
    ensures
        spec_decode(enc_registry(clear_all(fams))) == DecOutcomeV::Finished(
            Map::<u32, RecV>::empty(),
        ),
{
    let cleared = clear_all(fams);
    assert forall|i: int| 0 <= i < cleared.len() implies fam_encodable(#[trigger] cleared[i]) by {
        assert(fam_encodable(fams[i]));
    }
    assert forall|i: int| 0 <= i < cleared.len() implies counters_only(#[trigger] cleared[i]) by {}
    law_round_trip(cleared);
    assert forall|i: int| 0 <= i < cleared.len() implies (#[trigger] cleared[i]).samples.len()
        == 0 by {}
    lemma_fold_families_no_samples(Map::empty(), cleared);
}


/// Two registry states hold the same family sections, each section of one
/// appearing somewhere in the other, in whatever order.
pub open spec fn same_sections(a: Seq<FamilyV>, b: Seq<FamilyV>) -> bool {
    &&& forall|k: int| 0 <= k < b.len() ==> a.contains(#[trigger] b[k])
    &&& forall|k: int| 0 <= k < a.len() ==> b.contains(#[trigger] a[k])
}

/// Law, full shuffle: two payloads made of the same family sections decode
/// to the same records, whatever order the sections stand in. Shuffling the
/// sections of one payload is the special case where the two hold exactly
/// one copy of each section.
pub proof fn law_shuffle_independent(fams1: Seq<FamilyV>, fams2: Seq<FamilyV>)
    requires
        same_sections(fams1, fams2),
        encodable(fams1),
        tracked_are_counters(fams1),
        ids_consistent(fams1),
        tracked_names_distinct(fams1),
        tracked_fam_ids_distinct(fams1),
        encodable(fams2),
        tracked_are_counters(fams2),
        ids_consistent(fams2),
        tracked_names_distinct(fams2),
        tracked_fam_ids_distinct(fams2),
    ensures
        spec_decode(enc_registry(fams1)) == spec_decode(enc_registry(fams2)),
{
    law_round_trip(fams1);
    law_round_trip(fams2);
    let m1 = fold_families(Map::<u32, RecV>::empty(), fams1);
    let m2 = fold_families(Map::<u32, RecV>::empty(), fams2);
    assert forall|id: u32| has_tracked_sample(fams1, id) implies has_tracked_sample(
        fams2,
        id,
    ) by {
        lemma_tracked_witness_transfers(fams1, fams2, id);
    }
    assert forall|id: u32| has_tracked_sample(fams2, id) implies has_tracked_sample(
        fams1,
        id,
    ) by {
        lemma_tracked_witness_transfers(fams2, fams1, id);
    }
    assert forall|id: u32| #[trigger] m1.dom().contains(id) implies m2.dom().contains(id)
        && m1[id] == m2[id] by {
        lemma_fold_at_id(fams1, fams2, id);
    }
    assert forall|id: u32| #[trigger] m2.dom().contains(id) implies m1.dom().contains(id) by {
        lemma_witness_labels(fams2, id);
        lemma_fold_families_props(
            Map::<u32, RecV>::empty(),
            fams2,
            id,
            witness_lt(fams2, id),
            witness_ln(fams2, id),
        );
        lemma_tracked_witness_transfers(fams2, fams1, id);
        lemma_witness_labels(fams1, id);
        lemma_fold_families_props(
            Map::<u32, RecV>::empty(),
            fams1,
            id,
            witness_lt(fams1, id),
            witness_ln(fams1, id),
        );
    }
    assert(m1 =~= m2);
}

/// The identity type text some tracked sample for `id` carries.
pub open spec fn witness_lt(fams: Seq<FamilyV>, id: u32) -> Seq<u8> {
    if has_tracked_sample(fams, id) {
        let (k, j) = choose|k: int, j: int|
            #![trigger fams[k].samples[j]]
            0 <= k < fams.len() && tracked_field(sample_name(fams[k])) is Some && 0 <= j
                < fams[k].samples.len() && fams[k].samples[j].labels.id == id;
        fams[k].samples[j].labels.type_text
    } else {
        Seq::empty()
    }
}

/// The identity name some tracked sample for `id` carries.
pub open spec fn witness_ln(fams: Seq<FamilyV>, id: u32) -> Seq<u8> {
    if has_tracked_sample(fams, id) {
        let (k, j) = choose|k: int, j: int|
            #![trigger fams[k].samples[j]]
            0 <= k < fams.len() && tracked_field(sample_name(fams[k])) is Some && 0 <= j
                < fams[k].samples.len() && fams[k].samples[j].labels.id == id;
        fams[k].samples[j].labels.name
    } else {
        Seq::empty()
    }
}

proof fn lemma_witness_labels(fams: Seq<FamilyV>, id: u32)
    requires
        ids_consistent(fams),
    ensures
        id_labels_are(fams, id, witness_lt(fams, id), witness_ln(fams, id)),
{
    if has_tracked_sample(fams, id) {
        let (k, j) = choose|k: int, j: int|
            #![trigger fams[k].samples[j]]
            0 <= k < fams.len() && tracked_field(sample_name(fams[k])) is Some && 0 <= j
                < fams[k].samples.len() && fams[k].samples[j].labels.id == id;
        assert forall|k2: int, j2: int|
            #![trigger fams[k2].samples[j2]]
            0 <= k2 < fams.len() && tracked_field(sample_name(fams[k2])) is Some && 0 <= j2
                < fams[k2].samples.len() && fams[k2].samples[j2].labels.id == id implies fams[k2].samples[j2].labels.type_text
            == witness_lt(fams, id) && fams[k2].samples[j2].labels.name == witness_ln(
            fams,
            id,
        ) by {
            assert(fams[k].samples[j].labels.id == fams[k2].samples[j2].labels.id);
        }
    }
}

proof fn lemma_tracked_witness_transfers(a: Seq<FamilyV>, b: Seq<FamilyV>, id: u32)
    requires
        forall|k: int| 0 <= k < a.len() ==> b.contains(#[trigger] a[k]),
        has_tracked_sample(a, id),
    ensures
        has_tracked_sample(b, id),
{
    let (k, j) = choose|k: int, j: int|
        #![trigger a[k].samples[j]]
        0 <= k < a.len() && tracked_field(sample_name(a[k])) is Some && 0 <= j
            < a[k].samples.len() && a[k].samples[j].labels.id == id;
    assert(b.contains(a[k]));
    let k2 = choose|k2: int| 0 <= k2 < b.len() && b[k2] == a[k];
    assert(b[k2].samples[j].labels.id == id);
}

proof fn lemma_sets_transfers(a: Seq<FamilyV>, b: Seq<FamilyV>, fld: TrackedField, id: u32)
    requires
        forall|k: int| 0 <= k < a.len() ==> b.contains(#[trigger] a[k]),
        some_fam_sets(a, fld, id),
    ensures
        some_fam_sets(b, fld, id),
{
    let (k, j) = choose|k: int, j: int|
        #![trigger a[k].samples[j]]
        0 <= k < a.len() && tracked_field(sample_name(a[k])) == Option::Some(fld) && 0 <= j
            < a[k].samples.len() && a[k].samples[j].labels.id == id;
    assert(b.contains(a[k]));
    let k2 = choose|k2: int| 0 <= k2 < b.len() && b[k2] == a[k];
    assert(b[k2].samples[j].labels.id == id);
}

proof fn lemma_fold_at_id(fams1: Seq<FamilyV>, fams2: Seq<FamilyV>, id: u32)
    requires
        same_sections(fams1, fams2),
        ids_consistent(fams1),
        tracked_names_distinct(fams1),
        tracked_fam_ids_distinct(fams1),
        ids_consistent(fams2),
        tracked_names_distinct(fams2),
        tracked_fam_ids_distinct(fams2),
        fold_families(Map::<u32, RecV>::empty(), fams1).dom().contains(id),
    ensures
        fold_families(Map::<u32, RecV>::empty(), fams2).dom().contains(id),
        fold_families(Map::<u32, RecV>::empty(), fams1)[id] == fold_families(
            Map::<u32, RecV>::empty(),
            fams2,
        )[id],
{
    let m1 = fold_families(Map::<u32, RecV>::empty(), fams1);
    let m2 = fold_families(Map::<u32, RecV>::empty(), fams2);
    let lt = witness_lt(fams1, id);
    let ln = witness_ln(fams1, id);
    lemma_witness_labels(fams1, id);
    lemma_fold_families_props(Map::<u32, RecV>::empty(), fams1, id, lt, ln);
    assert(has_tracked_sample(fams1, id));
    lemma_tracked_witness_transfers(fams1, fams2, id);
    // The two witness labels agree: a tracked sample of one payload is a
    // tracked sample of the other.
    lemma_witness_labels(fams2, id);
    let (k, j) = choose|k: int, j: int|
        #![trigger fams1[k].samples[j]]
        0 <= k < fams1.len() && tracked_field(sample_name(fams1[k])) is Some && 0 <= j
            < fams1[k].samples.len() && fams1[k].samples[j].labels.id == id;
    assert(fams2.contains(fams1[k]));
    let kb = choose|kb: int| 0 <= kb < fams2.len() && fams2[kb] == fams1[k];
    assert(fams2[kb].samples[j].labels.id == id);
    assert(witness_lt(fams2, id) == lt && witness_ln(fams2, id) == ln) by {
        assert(fams2[kb].samples[j].labels.type_text == witness_lt(fams2, id));
        assert(fams2[kb].samples[j].labels.name == witness_ln(fams2, id));
        assert(fams1[k].samples[j].labels.type_text == lt);
        assert(fams1[k].samples[j].labels.name == ln);
    }
    lemma_fold_families_props(Map::<u32, RecV>::empty(), fams2, id, lt, ln);
    assert(m2.dom().contains(id));
    // The three tracked fields agree pointwise.
    assert forall|fld: TrackedField| #[trigger] rec_get(m1[id], fld) == rec_get(m2[id], fld) by {
        if some_fam_sets(fams1, fld, id) {
            let (ka, ja) = choose|ka: int, ja: int|
                #![trigger fams1[ka].samples[ja]]
                0 <= ka < fams1.len() && tracked_field(sample_name(fams1[ka])) == Option::Some(
                    fld,
                ) && 0 <= ja < fams1[ka].samples.len() && fams1[ka].samples[ja].labels.id == id;
            assert(rec_get(m1[id], fld) == value_mag(fams1[ka].samples[ja].value));
            assert(fams2.contains(fams1[ka]));
            let kc = choose|kc: int| 0 <= kc < fams2.len() && fams2[kc] == fams1[ka];
            assert(fams2[kc].samples[ja].labels.id == id);
            assert(rec_get(m2[id], fld) == value_mag(fams2[kc].samples[ja].value));
        } else {
            assert(!some_fam_sets(fams2, fld, id)) by {
                if some_fam_sets(fams2, fld, id) {
                    lemma_sets_transfers(fams2, fams1, fld, id);
                }
            }
            assert(rec_get(m1[id], fld) == 0 && rec_get(m2[id], fld) == 0);
        }
    }
    assert(rec_get(m1[id], TrackedField::RunTime) == rec_get(m2[id], TrackedField::RunTime));
    assert(rec_get(m1[id], TrackedField::RunCount) == rec_get(m2[id], TrackedField::RunCount));
    assert(rec_get(m1[id], TrackedField::Uptime) == rec_get(m2[id], TrackedField::Uptime));
}

} // verus!
