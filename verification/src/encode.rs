//! The exposition encoder: serializes a registry state into the plain-text
//! exposition format, deterministically. Families are emitted in
//! registration order, each as a HELP line, a TYPE line, a UNIT line when a
//! unit is set, and one sample line per label set, in sample order; the
//! payload ends with the end-of-payload marker line.
use vstd::prelude::*;
use vstd::slice::slice_to_vec;

use crate::bytes::{ascii_bytes, dec_digits, esc_bytes, lit_bytes, push_bytes, push_escaped, push_u64_dec};
use crate::errors::EncodeError;
use crate::kinds::{MetricType, SubjectKind, subject_of, subject_of_kind};
use crate::registry::{Family, FamilyV, MetricRegistry, MetricValue, Sample, SampleV};

verus! {

/// Bytes of `"# HELP "`.
pub open spec fn help_prefix() -> Seq<u8> {
    seq![35u8, 32u8, 72u8, 69u8, 76u8, 80u8, 32u8]
}

/// Bytes of `"# TYPE "`.
pub open spec fn type_prefix() -> Seq<u8> {
    seq![35u8, 32u8, 84u8, 89u8, 80u8, 69u8, 32u8]
}

/// Bytes of `"# UNIT "`.
pub open spec fn unit_prefix() -> Seq<u8> {
    seq![35u8, 32u8, 85u8, 78u8, 73u8, 84u8, 32u8]
}

/// Bytes of `"# EOF"`, the content of the end-of-payload marker line.
pub open spec fn eof_marker() -> Seq<u8> {
    seq![35u8, 32u8, 69u8, 79u8, 70u8]
}

/// Bytes of `"counter"`.
pub open spec fn counter_word() -> Seq<u8> {
    seq![99u8, 111u8, 117u8, 110u8, 116u8, 101u8, 114u8]
}

/// Bytes of `"gauge"`.
pub open spec fn gauge_word() -> Seq<u8> {
    seq![103u8, 97u8, 117u8, 103u8, 101u8]
}

/// Bytes of `"_total"`, the sample-name suffix of counter families.
pub open spec fn total_suffix() -> Seq<u8> {
    seq![95u8, 116u8, 111u8, 116u8, 97u8, 108u8]
}

/// Bytes of `"bpf"`, the registry prefix of every metric name.
pub open spec fn registry_prefix() -> Seq<u8> {
    seq![98u8, 112u8, 102u8]
}

/// Bytes of `"prog"`.
pub open spec fn prog_word() -> Seq<u8> {
    seq![112u8, 114u8, 111u8, 103u8]
}

/// Bytes of `"map"`.
pub open spec fn map_word() -> Seq<u8> {
    seq![109u8, 97u8, 112u8]
}

/// Bytes of `"link"`.
pub open spec fn link_word() -> Seq<u8> {
    seq![108u8, 105u8, 110u8, 107u8]
}

/// Bytes of `"{id=\""`, opening the label tuple of a sample line.
pub open spec fn lb_open() -> Seq<u8> {
    seq![123u8, 105u8, 100u8, 61u8, 34u8]
}

/// Bytes of `"\",program_type=\""`, between the ID value and the type value.
pub open spec fn lb_mid1() -> Seq<u8> {
    seq![
        34u8,
        44u8,
        112u8,
        114u8,
        111u8,
        103u8,
        114u8,
        97u8,
        109u8,
        95u8,
        116u8,
        121u8,
        112u8,
        101u8,
        61u8,
        34u8,
    ]
}

/// Bytes of `"\",name=\""`, between the type value and the name value.
pub open spec fn lb_mid2() -> Seq<u8> {
    seq![34u8, 44u8, 110u8, 97u8, 109u8, 101u8, 61u8, 34u8]
}

/// Bytes of `"\"} "`, closing the label tuple before the sample value.
pub open spec fn lb_close() -> Seq<u8> {
    seq![34u8, 125u8, 32u8]
}

/// The subject prefix within a metric name.
pub open spec fn subj_prefix(s: SubjectKind) -> Seq<u8> {
    match s {
        SubjectKind::Program => prog_word(),
        SubjectKind::MapObject => map_word(),
        SubjectKind::Link => link_word(),
    }
}

/// The full exposition name of a family:
/// `<registry prefix>_<subject prefix>_<family name>`.
pub open spec fn full_name(f: FamilyV) -> Seq<u8> {
    registry_prefix() + seq![95u8] + subj_prefix(subject_of(f.kind)) + seq![95u8] + f.name
}

/// The name a family's sample lines carry: counters get the total suffix,
/// gauges carry the full name unchanged.
pub open spec fn sample_name(f: FamilyV) -> Seq<u8> {
    if f.mtype == MetricType::Counter {
        full_name(f) + total_suffix()
    } else {
        full_name(f)
    }
}

/// The word on a family's TYPE line.
pub open spec fn type_word(t: MetricType) -> Seq<u8> {
    match t {
        MetricType::Counter => counter_word(),
        MetricType::Gauge => gauge_word(),
    }
}

/// The decimal rendering of one sample value: counters unsigned, gauges
/// signed with a leading minus when negative.
pub open spec fn enc_value(v: MetricValue) -> Seq<u8> {
    match v {
        MetricValue::Count(c) => dec_digits(c as nat),
        MetricValue::Level(g) => if g < 0 {
            seq![45u8] + dec_digits((-(g as int)) as nat)
        } else {
            dec_digits(g as nat)
        },
    }
}

/// One sample line, newline included.
pub open spec fn enc_sample(nm: Seq<u8>, s: SampleV) -> Seq<u8> {
    nm + lb_open() + dec_digits(s.labels.id as nat) + lb_mid1() + esc_bytes(s.labels.type_text)
        + lb_mid2() + esc_bytes(s.labels.name) + lb_close() + enc_value(s.value) + seq![10u8]
}

/// The sample lines of one family, in sample order.
pub open spec fn enc_samples(nm: Seq<u8>, ss: Seq<SampleV>) -> Seq<u8>
    decreases ss.len(),
{
    if ss.len() == 0 {
        Seq::empty()
    } else {
        enc_sample(nm, ss[0]) + enc_samples(nm, ss.skip(1))
    }
}

/// A family's HELP line, newline included.
pub open spec fn help_line(f: FamilyV) -> Seq<u8> {
    help_prefix() + full_name(f) + seq![32u8] + f.help + seq![10u8]
}

/// A family's TYPE line, newline included.
pub open spec fn type_line(f: FamilyV) -> Seq<u8> {
    type_prefix() + full_name(f) + seq![32u8] + type_word(f.mtype) + seq![10u8]
}

/// A family's UNIT line when a unit is set, empty otherwise.
pub open spec fn unit_line_opt(f: FamilyV) -> Seq<u8> {
    match f.unit {
        Option::None => Seq::empty(),
        Option::Some(u) => unit_prefix() + full_name(f) + seq![32u8] + u + seq![10u8],
    }
}

/// One family section: metadata lines, then sample lines.
pub open spec fn enc_family(f: FamilyV) -> Seq<u8> {
    help_line(f) + type_line(f) + unit_line_opt(f) + enc_samples(sample_name(f), f.samples)
}

/// All family sections, in registration order.
pub open spec fn enc_families(fams: Seq<FamilyV>) -> Seq<u8>
    decreases fams.len(),
{
    if fams.len() == 0 {
        Seq::empty()
    } else {
        enc_family(fams[0]) + enc_families(fams.skip(1))
    }
}

/// The whole payload: the family sections followed by the end-of-payload
/// marker line.
pub open spec fn enc_registry(fams: Seq<FamilyV>) -> Seq<u8> {
    enc_families(fams) + eof_marker() + seq![10u8]
}

/// A byte a family name may carry: a lower-case letter, a digit or an
/// underscore.
pub open spec fn name_byte_ok(b: u8) -> bool {
    (97 <= b <= 122) || (48 <= b <= 57) || b == 95
}

/// A well-formed family name: nonempty, made of name bytes only.
pub open spec fn name_ok(s: Seq<u8>) -> bool {
    s.len() > 0 && (forall|i: int| 0 <= i < s.len() ==> name_byte_ok(#[trigger] s[i]))
}

/// Text the format can carry on one line: no newline byte.
pub open spec fn text_ok(s: Seq<u8>) -> bool {
    forall|i: int| 0 <= i < s.len() ==> #[trigger] s[i] != 10
}

/// Whether one sample's label values are free of newline bytes. Quotes and
/// backslashes are fine: the encoder escapes them.
pub open spec fn sample_text_ok(s: SampleV) -> bool {
    text_ok(s.labels.type_text) && text_ok(s.labels.name)
}

/// Whether one family can be serialized: a well-formed name, and help,
/// unit and label values free of newline bytes.
pub open spec fn fam_encodable(f: FamilyV) -> bool {
    &&& name_ok(f.name)
    &&& text_ok(f.help)
    &&& (match f.unit {
        Option::None => true,
        Option::Some(u) => text_ok(u),
    })
    &&& (forall|i: int| 0 <= i < f.samples.len() ==> sample_text_ok(#[trigger] f.samples[i]))
}

/// Whether a whole registry state can be serialized.
pub open spec fn encodable(fams: Seq<FamilyV>) -> bool {
    forall|i: int| 0 <= i < fams.len() ==> fam_encodable(#[trigger] fams[i])
}

pub proof fn lemma_enc_samples_snoc(nm: Seq<u8>, ss: Seq<SampleV>, s: SampleV)
    ensures
        enc_samples(nm, ss.push(s)) == enc_samples(nm, ss) + enc_sample(nm, s),
    decreases ss.len(),
{
    if ss.len() == 0 {
        assert(ss.push(s).skip(1) =~= Seq::<SampleV>::empty());
        assert(ss.push(s)[0] == s);
        assert(enc_samples(nm, ss.push(s)) == enc_sample(nm, s) + enc_samples(
            nm,
            Seq::<SampleV>::empty(),
        ));
        assert(enc_samples(nm, Seq::<SampleV>::empty()) == Seq::<u8>::empty());
        assert(enc_samples(nm, ss) == Seq::<u8>::empty());
        assert(enc_samples(nm, ss.push(s)) =~= enc_samples(nm, ss) + enc_sample(nm, s));
    } else {
        lemma_enc_samples_snoc(nm, ss.skip(1), s);
        assert(ss.push(s).skip(1) =~= ss.skip(1).push(s));
        assert(ss.push(s)[0] == ss[0]);
        assert(enc_samples(nm, ss.push(s)) == enc_sample(nm, ss[0]) + enc_samples(
            nm,
            ss.skip(1).push(s),
        ));
        assert(enc_samples(nm, ss.push(s)) =~= enc_samples(nm, ss) + enc_sample(nm, s));
    }
}

pub proof fn lemma_enc_families_snoc(fams: Seq<FamilyV>, f: FamilyV)
    ensures
        enc_families(fams.push(f)) == enc_families(fams) + enc_family(f),
    decreases fams.len(),
{
    if fams.len() == 0 {
        assert(fams.push(f).skip(1) =~= Seq::<FamilyV>::empty());
        assert(fams.push(f)[0] == f);
        assert(enc_families(fams.push(f)) == enc_family(f) + enc_families(
            Seq::<FamilyV>::empty(),
        ));
        assert(enc_families(Seq::<FamilyV>::empty()) == Seq::<u8>::empty());
        assert(enc_families(fams) == Seq::<u8>::empty());
        assert(enc_families(fams.push(f)) =~= enc_families(fams) + enc_family(f));
    } else {
        lemma_enc_families_snoc(fams.skip(1), f);
        assert(fams.push(f).skip(1) =~= fams.skip(1).push(f));
        assert(fams.push(f)[0] == fams[0]);
        assert(enc_families(fams.push(f)) == enc_family(fams[0]) + enc_families(
            fams.skip(1).push(f),
        ));
        assert(enc_families(fams.push(f)) =~= enc_families(fams) + enc_family(f));
    }
}

/// Bytes of `"# HELP "` as a vector.
pub fn help_prefix_vec() -> (r: Vec<u8>)
    ensures
        r@ == help_prefix(),
{
    proof {
        reveal_strlit("# HELP ");
        assert(ascii_bytes("# HELP "@) =~= help_prefix());
    }
    lit_bytes("# HELP ")
}

/// Bytes of `"# TYPE "` as a vector.
pub fn type_prefix_vec() -> (r: Vec<u8>)
    ensures
        r@ == type_prefix(),
{
    proof {
        reveal_strlit("# TYPE ");
        assert(ascii_bytes("# TYPE "@) =~= type_prefix());
    }
    lit_bytes("# TYPE ")
}

/// Bytes of `"# UNIT "` as a vector.
pub fn unit_prefix_vec() -> (r: Vec<u8>)
    ensures
        r@ == unit_prefix(),
{
    proof {
        reveal_strlit("# UNIT ");
        assert(ascii_bytes("# UNIT "@) =~= unit_prefix());
    }
    lit_bytes("# UNIT ")
}

/// Bytes of `"# EOF"` as a vector.
pub fn eof_marker_vec() -> (r: Vec<u8>)
    ensures
        r@ == eof_marker(),
{
    proof {
        reveal_strlit("# EOF");
        assert(ascii_bytes("# EOF"@) =~= eof_marker());
    }
    lit_bytes("# EOF")
}

fn type_word_vec(t: MetricType) -> (r: Vec<u8>)
    ensures
        r@ == type_word(t),
{
    match t {
        MetricType::Counter => {
            proof {
                reveal_strlit("counter");
                assert(ascii_bytes("counter"@) =~= counter_word());
            }
            lit_bytes("counter")
        },
        MetricType::Gauge => {
            proof {
                reveal_strlit("gauge");
                assert(ascii_bytes("gauge"@) =~= gauge_word());
            }
            lit_bytes("gauge")
        },
    }
}

fn total_suffix_vec() -> (r: Vec<u8>)
    ensures
        r@ == total_suffix(),
{
    proof {
        reveal_strlit("_total");
        assert(ascii_bytes("_total"@) =~= total_suffix());
    }
    lit_bytes("_total")
}

fn subj_prefix_vec(s: SubjectKind) -> (r: Vec<u8>)
    ensures
        r@ == subj_prefix(s),
{
    match s {
        SubjectKind::Program => {
            proof {
                reveal_strlit("prog");
                assert(ascii_bytes("prog"@) =~= prog_word());
            }
            lit_bytes("prog")
        },
        SubjectKind::MapObject => {
            proof {
                reveal_strlit("map");
                assert(ascii_bytes("map"@) =~= map_word());
            }
            lit_bytes("map")
        },
        SubjectKind::Link => {
            proof {
                reveal_strlit("link");
                assert(ascii_bytes("link"@) =~= link_word());
            }
            lit_bytes("link")
        },
    }
}

fn lb_open_vec() -> (r: Vec<u8>)
    ensures
        r@ == lb_open(),
{
    proof {
        reveal_strlit("{id=\"");
        assert(ascii_bytes("{id=\""@) =~= lb_open());
    }
    lit_bytes("{id=\"")
}

pub fn lb_mid1_vec() -> (r: Vec<u8>)
    ensures
        r@ == lb_mid1(),
{
    proof {
        reveal_strlit("\",program_type=\"");
        assert(ascii_bytes("\",program_type=\""@) =~= lb_mid1());
    }
    lit_bytes("\",program_type=\"")
}

fn lb_mid2_vec() -> (r: Vec<u8>)
    ensures
        r@ == lb_mid2(),
{
    proof {
        reveal_strlit("\",name=\"");
        assert(ascii_bytes("\",name=\""@) =~= lb_mid2());
    }
    lit_bytes("\",name=\"")
}

fn lb_close_vec() -> (r: Vec<u8>)
    ensures
        r@ == lb_close(),
{
    proof {
        reveal_strlit("\"} ");
        assert(ascii_bytes("\"} "@) =~= lb_close());
    }
    lit_bytes("\"} ")
}

/// Builds the full exposition name of a family.
fn build_full_name(f: &Family) -> (r: Vec<u8>)
    ensures
        r@ == full_name(f@),
{
    proof {
        reveal_strlit("bpf");
        assert(ascii_bytes("bpf"@) =~= registry_prefix());
    }
    let mut out = lit_bytes("bpf");
    out.push(95);
    let subj = subj_prefix_vec(subject_of_kind(f.kind));
    push_bytes(&mut out, subj.as_slice());
    out.push(95);
    push_bytes(&mut out, f.name.as_slice());
    proof {
        assert(out@ =~= full_name(f@));
    }
    out
}

/// Whether every byte of `v` may stand in a family name.
fn all_name_bytes(v: &[u8]) -> (r: bool)
    ensures
        r == (forall|i: int| 0 <= i < v@.len() ==> name_byte_ok(#[trigger] v@[i])),
{
    let mut i: usize = 0;
    while i < v.len()
        invariant
            i <= v@.len(),
            forall|j: int| 0 <= j < i ==> name_byte_ok(#[trigger] v@[j]),
        decreases v@.len() - i,
    {
        let b = v[i];
        if !((97 <= b && b <= 122) || (48 <= b && b <= 57) || b == 95) {
            return false;
        }
        i = i + 1;
    }
    true
}

/// Whether `v` is free of newline bytes.
fn no_newline(v: &[u8]) -> (r: bool)
    ensures
        r == text_ok(v@),
{
    let mut i: usize = 0;
    while i < v.len()
        invariant
            i <= v@.len(),
            forall|j: int| 0 <= j < i ==> #[trigger] v@[j] != 10,
        decreases v@.len() - i,
    {
        if v[i] == 10 {
            return false;
        }
        i = i + 1;
    }
    true
}

/// Whether one family can be serialized.
fn check_family(f: &Family) -> (r: bool)
    ensures
        r == fam_encodable(f@),
{
    if f.name.len() == 0 {
        return false;
    }
    if !all_name_bytes(f.name.as_slice()) {
        return false;
    }
    if !no_newline(f.help.as_slice()) {
        return false;
    }
    match &f.unit {
        Option::Some(u) => {
            if !no_newline(u.as_slice()) {
                return false;
            }
        },
        Option::None => {},
    }
    let mut j: usize = 0;
    while j < f.samples.len()
        invariant
            j <= f.samples@.len(),
            f@.samples.len() == f.samples@.len(),
            forall|m: int| 0 <= m < j ==> sample_text_ok(#[trigger] f@.samples[m]),
        decreases f.samples@.len() - j,
    {
        let s = &f.samples[j];
        proof {
            assert(f@.samples[j as int] == f.samples@[j as int]@);
        }
        if !no_newline(s.labels.type_text.as_slice()) {
            proof {
                assert(!sample_text_ok(f@.samples[j as int]));
                assert(!fam_encodable(f@));
            }
            return false;
        }
        if !no_newline(s.labels.name.as_slice()) {
            proof {
                assert(!sample_text_ok(f@.samples[j as int]));
                assert(!fam_encodable(f@));
            }
            return false;
        }
        proof {
            assert(sample_text_ok(f@.samples[j as int]));
        }
        j = j + 1;
    }
    true
}

/// Appends one sample line to `out`.
fn push_sample(out: &mut Vec<u8>, nm: &Vec<u8>, s: &Sample)
    ensures
        final(out)@ == old(out)@ + enc_sample(nm@, s@),
{
    push_bytes(out, nm.as_slice());
    let open = lb_open_vec();
    push_bytes(out, open.as_slice());
    push_u64_dec(out, s.labels.id as u64);
    let mid1 = lb_mid1_vec();
    push_bytes(out, mid1.as_slice());
    push_escaped(out, s.labels.type_text.as_slice());
    let mid2 = lb_mid2_vec();
    push_bytes(out, mid2.as_slice());
    push_escaped(out, s.labels.name.as_slice());
    let close = lb_close_vec();
    push_bytes(out, close.as_slice());
    match s.value {
        MetricValue::Count(c) => {
            push_u64_dec(out, c);
        },
        MetricValue::Level(g) => {
            if g < 0 {
                out.push(45);
                let m: u64 = if g == i64::MIN {
                    9223372036854775808u64
                } else {
                    (-g) as u64
                };
                push_u64_dec(out, m);
                proof {
                    assert(m as nat == (-(g as int)) as nat);
                }
            } else {
                push_u64_dec(out, g as u64);
            }
        },
    }
    out.push(10);
    proof {
        assert(out@ =~= old(out)@ + enc_sample(nm@, s@));
    }
}

/// Appends one family section to `out`.
#[verifier::rlimit(40)]
fn push_family(out: &mut Vec<u8>, f: &Family)
    ensures
        final(out)@ == old(out)@ + enc_family(f@),
{
    let nm = build_full_name(f);
    let hp = help_prefix_vec();
    push_bytes(out, hp.as_slice());
    push_bytes(out, nm.as_slice());
    out.push(32);
    push_bytes(out, f.help.as_slice());
    out.push(10);
    proof {
        assert(out@ =~= old(out)@ + help_line(f@));
    }
    let tp = type_prefix_vec();
    push_bytes(out, tp.as_slice());
    push_bytes(out, nm.as_slice());
    out.push(32);
    let tw = type_word_vec(f.mtype);
    push_bytes(out, tw.as_slice());
    out.push(10);
    proof {
        assert(out@ =~= old(out)@ + help_line(f@) + type_line(f@));
    }
    match &f.unit {
        Option::Some(u) => {
            let up = unit_prefix_vec();
            push_bytes(out, up.as_slice());
            push_bytes(out, nm.as_slice());
            out.push(32);
            push_bytes(out, u.as_slice());
            out.push(10);
        },
        Option::None => {},
    }
    proof {
        assert(out@ =~= old(out)@ + help_line(f@) + type_line(f@) + unit_line_opt(f@));
    }
    let mut snm = slice_to_vec(nm.as_slice());
    if f.mtype == MetricType::Counter {
        let ts = total_suffix_vec();
        push_bytes(&mut snm, ts.as_slice());
    }
    proof {
        assert(snm@ =~= sample_name(f@));
    }
    let ghost mid = out@;
    let mut j: usize = 0;
    proof {
        assert(enc_samples(snm@, f@.samples.take(0)) =~= Seq::<u8>::empty());
        assert(out@ =~= mid + enc_samples(snm@, f@.samples.take(0)));
    }
    while j < f.samples.len()
        invariant
            j <= f.samples@.len(),
            f@.samples.len() == f.samples@.len(),
            snm@ == sample_name(f@),
            out@ == mid + enc_samples(snm@, f@.samples.take(j as int)),
            forall|m: int| 0 <= m < f.samples@.len() ==> f@.samples[m] == f.samples@[m]@,
        decreases f.samples@.len() - j,
    {
        push_sample(out, &snm, &f.samples[j]);
        proof {
            lemma_enc_samples_snoc(snm@, f@.samples.take(j as int), f@.samples[j as int]);
            assert(f@.samples.take(j + 1) =~= f@.samples.take(j as int).push(f@.samples[j as int]));
            assert(out@ =~= mid + enc_samples(snm@, f@.samples.take(j + 1)));
        }
        j = j + 1;
    }
    proof {
        assert(f@.samples.take(f.samples@.len() as int) =~= f@.samples);
        assert(out@ =~= old(out)@ + enc_family(f@));
    }
}

/// Serializes a registry state into the exposition text format without
/// changing it. Succeeds exactly when every family is serializable; the
/// output is a deterministic function of the registry state.
pub fn encode_registry(reg: &MetricRegistry) -> (r: Result<Vec<u8>, EncodeError>)
    ensures
        match r {
            Result::Ok(v) => encodable(reg@) && v@ == enc_registry(reg@),
            Result::Err(e) => !encodable(reg@) && e == EncodeError::InvalidText,
        },
{
    let mut i: usize = 0;
    while i < reg.families.len()
        invariant
            i <= reg.families@.len(),
            reg@.len() == reg.families@.len(),
            forall|j: int| 0 <= j < i ==> fam_encodable(#[trigger] reg@[j]),
        decreases reg.families@.len() - i,
    {
        if !check_family(&reg.families[i]) {
            proof {
                assert(!fam_encodable(reg@[i as int]));
            }
            return Result::Err(EncodeError::InvalidText);
        }
        i = i + 1;
    }
    let mut out: Vec<u8> = Vec::new();
    let mut k: usize = 0;
    proof {
        assert(enc_families(reg@.take(0)) =~= Seq::<u8>::empty());
        assert(out@ =~= enc_families(reg@.take(0)));
    }
    while k < reg.families.len()
        invariant
            k <= reg.families@.len(),
            reg@.len() == reg.families@.len(),
            out@ == enc_families(reg@.take(k as int)),
        decreases reg.families@.len() - k,
    {
        push_family(&mut out, &reg.families[k]);
        proof {
            lemma_enc_families_snoc(reg@.take(k as int), reg@[k as int]);
            assert(reg@.take(k + 1) =~= reg@.take(k as int).push(reg@[k as int]));
        }
        k = k + 1;
    }
    let em = eof_marker_vec();
    push_bytes(&mut out, em.as_slice());
    out.push(10);
    proof {
        assert(reg@.take(reg@.len() as int) =~= reg@);
        assert(out@ =~= enc_registry(reg@));
    }
    Result::Ok(out)
}

} // verus!
