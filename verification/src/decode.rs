//! The exposition decoder: reconstructs one record per entity ID from a
//! text payload, independent of the order the family sections were emitted
//! in. It is a single-pass state machine over the payload's lines, with an
//! explicit need-more-input outcome distinct from a parse error, so a
//! payload received in chunks can be re-fed until the end-of-payload marker
//! arrives.
use vstd::prelude::*;

use vstd::slice::{slice_subrange, slice_to_vec};

use crate::bytes::{
    all_digits, ascii_bytes, bytes_eq, digits_prefix_len, digits_val, find_byte, find_byte_in,
    lemma_digits_prefix_len_bounds, lit_bytes, scan_quoted, scan_quoted_in, scan_u64_digits,
    starts_with,
};
use crate::encode::{
    eof_marker, eof_marker_vec, help_prefix, help_prefix_vec, lb_mid1, lb_mid1_vec, prog_word,
    registry_prefix, total_suffix, type_prefix, type_prefix_vec, unit_prefix, unit_prefix_vec,
};
use crate::errors::ParseError;
use crate::facade::{nm_execution, nm_run_time, nm_uptime};
use crate::record::{EntityRecord, RecV};

verus! {

/// The record field a recognized metric name feeds.
#[derive(Clone, Copy, Debug, PartialEq, Eq, Structural)]
pub enum TrackedField {
    /// Accumulated run time.
    RunTime,
    /// Accumulated execution count.
    RunCount,
    /// Time since the entity was loaded.
    Uptime,
}

/// The sample name of the program run-time counter.
pub open spec fn trk_run_time() -> Seq<u8> {
    registry_prefix() + seq![95u8] + prog_word() + seq![95u8] + nm_run_time() + total_suffix()
}

/// The sample name of the program execution counter.
pub open spec fn trk_execution() -> Seq<u8> {
    registry_prefix() + seq![95u8] + prog_word() + seq![95u8] + nm_execution() + total_suffix()
}

/// The sample name of the program uptime counter.
pub open spec fn trk_uptime() -> Seq<u8> {
    registry_prefix() + seq![95u8] + prog_word() + seq![95u8] + nm_uptime() + total_suffix()
}

/// The fixed name-to-field table. Any other metric name is ignored,
/// forward-compatible with newly added metrics.
pub open spec fn tracked_field(metric: Seq<u8>) -> Option<TrackedField> {
    if metric == trk_run_time() {
        Option::Some(TrackedField::RunTime)
    } else if metric == trk_execution() {
        Option::Some(TrackedField::RunCount)
    } else if metric == trk_uptime() {
        Option::Some(TrackedField::Uptime)
    } else {
        Option::None
    }
}

/// One parsed sample line: the metric name, the label tuple with escapes
/// resolved, and the numeric value with its sign.
pub struct SampleTupleV {
    pub metric: Seq<u8>,
    pub id: u32,
    pub type_text: Seq<u8>,
    pub name: Seq<u8>,
    pub neg: bool,
    pub value: u64,
}

/// Bytes of `"id=\""`, expected right after the opening brace.
pub open spec fn idq() -> Seq<u8> {
    seq![105u8, 100u8, 61u8, 34u8]
}

/// Bytes of `",name=\""`, expected after the type value's closing quote.
pub open spec fn name_sep() -> Seq<u8> {
    seq![44u8, 110u8, 97u8, 109u8, 101u8, 61u8, 34u8]
}

/// Bytes of `"} "`, expected after the name value's closing quote.
pub open spec fn close_sp() -> Seq<u8> {
    seq![125u8, 32u8]
}

/// Parses one sample line:
/// `<metric>{id="<digits>",program_type="<text>",name="<text>"} <value>`,
/// where the value is an optional minus sign and digits that fit a `u64`.
pub open spec fn parse_sample_line(l: Seq<u8>) -> Option<SampleTupleV> {
    let i = find_byte(l, 123);
    if i <= 0 {
        Option::None
    } else {
        let metric = l.take(i);
        let r1 = l.skip(i + 1);
        if !starts_with(r1, idq()) {
            Option::None
        } else {
            parse_after_brace(r1.skip(4), metric)
        }
    }
}

/// Parses the ID digits and what follows them.
pub open spec fn parse_after_brace(r2: Seq<u8>, metric: Seq<u8>) -> Option<SampleTupleV> {
    let dl = digits_prefix_len(r2);
    if dl == 0 || digits_val(r2.take(dl)) > u32::MAX {
        Option::None
    } else {
        parse_after_id(r2.skip(dl), metric, digits_val(r2.take(dl)) as u32)
    }
}

/// Parses the type label and what follows it.
pub open spec fn parse_after_id(r3: Seq<u8>, metric: Seq<u8>, id: u32) -> Option<SampleTupleV> {
    if !starts_with(r3, lb_mid1()) {
        Option::None
    } else {
        match scan_quoted(r3.skip(16)) {
            Option::None => Option::None,
            Option::Some((tt, c1)) => parse_after_type(r3.skip(16).skip(c1), metric, id, tt),
        }
    }
}

/// Parses the name label and what follows it.
pub open spec fn parse_after_type(r4: Seq<u8>, metric: Seq<u8>, id: u32, tt: Seq<u8>) -> Option<
    SampleTupleV,
> {
    if !starts_with(r4, name_sep()) {
        Option::None
    } else {
        match scan_quoted(r4.skip(7)) {
            Option::None => Option::None,
            Option::Some((nm, c2)) => parse_after_name(r4.skip(7).skip(c2), metric, id, tt, nm),
        }
    }
}

/// Parses the closing of the label tuple and the value.
pub open spec fn parse_after_name(
    r5: Seq<u8>,
    metric: Seq<u8>,
    id: u32,
    tt: Seq<u8>,
    nm: Seq<u8>,
) -> Option<SampleTupleV> {
    if !starts_with(r5, close_sp()) {
        Option::None
    } else {
        parse_value(metric, id, tt, nm, r5.skip(2))
    }
}

/// Parses the value part of a sample line.
pub open spec fn parse_value(
    metric: Seq<u8>,
    id: u32,
    tt: Seq<u8>,
    nm: Seq<u8>,
    v: Seq<u8>,
) -> Option<SampleTupleV> {
    let neg = v.len() > 0 && v[0] == 45;
    let ds = if neg {
        v.skip(1)
    } else {
        v
    };
    if ds.len() == 0 || !all_digits(ds) || digits_val(ds) > u64::MAX {
        Option::None
    } else {
        Option::Some(
            SampleTupleV {
                metric,
                id,
                type_text: tt,
                name: nm,
                neg,
                value: digits_val(ds) as u64,
            },
        )
    }
}

/// What one payload line is.
pub enum LineClassV {
    /// A HELP metadata line, opening a family section.
    Help,
    /// A TYPE metadata line.
    TypeL,
    /// A UNIT metadata line.
    Unit,
    /// The end-of-payload marker line.
    Eof,
    /// Some other line starting with the comment byte.
    OtherMeta,
    /// A well-formed sample line.
    SampleL(SampleTupleV),
    /// Anything else.
    Bad,
}

/// Classifies one line, the terminating newline excluded.
pub open spec fn classify_line(l: Seq<u8>) -> LineClassV {
    if l == eof_marker() {
        LineClassV::Eof
    } else if starts_with(l, help_prefix()) {
        LineClassV::Help
    } else if starts_with(l, type_prefix()) {
        LineClassV::TypeL
    } else if starts_with(l, unit_prefix()) {
        LineClassV::Unit
    } else if l.len() > 0 && l[0] == 35 {
        LineClassV::OtherMeta
    } else {
        match parse_sample_line(l) {
            Option::Some(s) => LineClassV::SampleL(s),
            Option::None => LineClassV::Bad,
        }
    }
}

/// Where the decoder stands between lines: awaiting a section or the end
/// marker, awaiting the TYPE line, inside a section's body (with the UNIT
/// line still allowed or not), or done.
#[derive(Clone, Copy, Debug, PartialEq, Eq, Structural)]
pub enum Phase {
    /// Awaiting a HELP line or the end-of-payload marker.
    Idle,
    /// A HELP line was read; only a TYPE line may follow.
    AfterHelp,
    /// Inside a section: samples, a new section or the end marker may
    /// follow; the flag says whether a UNIT line may still come.
    Body(bool),
    /// The end-of-payload marker was read; nothing may follow.
    Done,
}

/// The decoder state: the machine phase and the records folded so far,
/// keyed by entity ID.
pub struct DecStateV {
    pub phase: Phase,
    pub recs: Map<u32, RecV>,
}

/// A fresh record created from the first sample seen for its entity ID.
pub open spec fn rec_init(s: SampleTupleV) -> RecV {
    RecV {
        id: s.id,
        type_text: s.type_text,
        name: s.name,
        run_time_ns: 0,
        prev_run_time_ns: 0,
        run_cnt: 0,
        prev_run_cnt: 0,
        uptime_ns: 0,
    }
}

/// A record with one tracked field set.
pub open spec fn rec_set(r: RecV, f: TrackedField, v: u64) -> RecV {
    match f {
        TrackedField::RunTime => RecV { run_time_ns: v, ..r },
        TrackedField::RunCount => RecV { run_cnt: v, ..r },
        TrackedField::Uptime => RecV { uptime_ns: v, ..r },
    }
}

/// Folds one tracked sample into the records: same-ID samples from
/// different sections merge into one record, whose identity fields come
/// from the first sample seen for that ID.
pub open spec fn apply_tracked(m: Map<u32, RecV>, s: SampleTupleV, f: TrackedField) -> Map<
    u32,
    RecV,
> {
    if m.dom().contains(s.id) {
        m.insert(s.id, rec_set(m[s.id], f, s.value))
    } else {
        m.insert(s.id, rec_set(rec_init(s), f, s.value))
    }
}

/// What one line does to the state.
pub enum StepResV {
    Next(DecStateV),
    Fail(ParseError),
}

/// The decoder's transition on one complete line.
pub open spec fn step_line(st: DecStateV, l: Seq<u8>) -> StepResV {
    match st.phase {
        Phase::Done => StepResV::Fail(ParseError::TrailingData),
        Phase::Idle => match classify_line(l) {
            LineClassV::Eof => StepResV::Next(DecStateV { phase: Phase::Done, ..st }),
            LineClassV::Help => StepResV::Next(DecStateV { phase: Phase::AfterHelp, ..st }),
            _ => StepResV::Fail(ParseError::BadMetadata),
        },
        Phase::AfterHelp => match classify_line(l) {
            LineClassV::TypeL => StepResV::Next(DecStateV { phase: Phase::Body(true), ..st }),
            _ => StepResV::Fail(ParseError::BadMetadata),
        },
        Phase::Body(unit_allowed) => match classify_line(l) {
            LineClassV::Help => StepResV::Next(DecStateV { phase: Phase::AfterHelp, ..st }),
            LineClassV::Eof => StepResV::Next(DecStateV { phase: Phase::Done, ..st }),
            LineClassV::Unit => if unit_allowed {
                StepResV::Next(DecStateV { phase: Phase::Body(false), ..st })
            } else {
                StepResV::Fail(ParseError::BadMetadata)
            },
            LineClassV::TypeL => StepResV::Fail(ParseError::BadMetadata),
            LineClassV::OtherMeta => StepResV::Fail(ParseError::BadMetadata),
            LineClassV::SampleL(s) => match tracked_field(s.metric) {
                Option::None => StepResV::Next(DecStateV { phase: Phase::Body(false), ..st }),
                Option::Some(f) => if s.neg {
                    StepResV::Fail(ParseError::NegativeCounter)
                } else {
                    StepResV::Next(
                        DecStateV { phase: Phase::Body(false), recs: apply_tracked(st.recs, s, f) },
                    )
                },
            },
            LineClassV::Bad => StepResV::Fail(ParseError::BadSampleLine),
        },
    }
}

/// The decoder's outcome on a whole input.
pub enum DecOutcomeV {
    /// The payload was complete and well-formed; the records, by entity ID.
    Finished(Map<u32, RecV>),
    /// The input is not a complete payload yet; more bytes may follow.
    Incomplete,
    /// The payload is malformed.
    Fail(ParseError),
}

/// Runs the line machine over the input from a given state. Only complete,
/// newline-terminated lines are judged: a trailing fragment, or an input
/// that has not reached the end-of-payload marker, is incomplete rather
/// than wrong. After the marker, any further byte is trailing data.
pub open spec fn dec_from(s: Seq<u8>, st: DecStateV) -> DecOutcomeV
    decreases s.len(),
{
    if st.phase == Phase::Done {
        if s.len() == 0 {
            DecOutcomeV::Finished(st.recs)
        } else {
            DecOutcomeV::Fail(ParseError::TrailingData)
        }
    } else {
        let i = find_byte(s, 10);
        if i < 0 || i >= s.len() {
            DecOutcomeV::Incomplete
        } else {
            match step_line(st, s.take(i)) {
                StepResV::Fail(e) => DecOutcomeV::Fail(e),
                StepResV::Next(st2) => dec_from(s.skip(i + 1), st2),
            }
        }
    }
}

/// The state the decoder starts from.
pub open spec fn init_state() -> DecStateV {
    DecStateV { phase: Phase::Idle, recs: Map::empty() }
}

/// What decoding a payload yields.
pub open spec fn spec_decode(s: Seq<u8>) -> DecOutcomeV {
    dec_from(s, init_state())
}

/// The values of a sequence of records.
pub open spec fn recs_seq(rs: Seq<crate::record::EntityRecord>) -> Seq<RecV> {
    Seq::new(rs.len(), |i: int| rs[i]@)
}

/// The mapping a sequence of records represents, keyed by entity ID.
pub open spec fn recs_map(rs: Seq<RecV>) -> Map<u32, RecV>
    decreases rs.len(),
{
    if rs.len() == 0 {
        Map::empty()
    } else {
        recs_map(rs.drop_last()).insert(rs.last().id, rs.last())
    }
}

/// Strictly ascending entity IDs: sorted, and no ID twice.
pub open spec fn sorted_by_id(rs: Seq<RecV>) -> bool {
    forall|i: int, j: int| #![trigger rs[i], rs[j]] 0 <= i < j < rs.len() ==> rs[i].id < rs[j].id
}

/// An ID is in the mapping exactly when some record carries it.
pub proof fn lemma_recs_map_contains(rs: Seq<RecV>, id: u32)
    ensures
        recs_map(rs).dom().contains(id) <==> exists|i: int|
            0 <= i < rs.len() && (#[trigger] rs[i]).id == id,
    decreases rs.len(),
{
    if rs.len() > 0 {
        lemma_recs_map_contains(rs.drop_last(), id);
        if rs.last().id == id {
            assert(rs[rs.len() - 1].id == id);
        } else {
            if recs_map(rs).dom().contains(id) {
                let i = choose|i: int|
                    0 <= i < rs.drop_last().len() && (#[trigger] rs.drop_last()[i]).id == id;
                assert(rs[i].id == id);
            }
            if exists|i: int| 0 <= i < rs.len() && (#[trigger] rs[i]).id == id {
                let i = choose|i: int| 0 <= i < rs.len() && (#[trigger] rs[i]).id == id;
                assert(rs.drop_last()[i].id == id);
            }
        }
    }
}

/// With pairwise distinct IDs, the mapping sends each record's ID to it.
pub proof fn lemma_recs_map_at(rs: Seq<RecV>, j: int)
    requires
        0 <= j < rs.len(),
        forall|i: int, k: int|
            #![trigger rs[i], rs[k]]
            0 <= i < k < rs.len() ==> rs[i].id != rs[k].id,
    ensures
        recs_map(rs)[rs[j].id] == rs[j],
    decreases rs.len(),
{
    if j == rs.len() - 1 {
    } else {
        lemma_recs_map_at(rs.drop_last(), j);
        assert(rs.drop_last()[j] == rs[j]);
        assert(rs[j].id != rs.last().id);
    }
}

/// Overwriting the record at a position updates the mapping at its ID.
pub proof fn lemma_recs_map_update(rs: Seq<RecV>, j: int, r: RecV)
    requires
        0 <= j < rs.len(),
        r.id == rs[j].id,
        forall|i: int, k: int|
            #![trigger rs[i], rs[k]]
            0 <= i < k < rs.len() ==> rs[i].id != rs[k].id,
    ensures
        recs_map(rs.update(j, r)) == recs_map(rs).insert(r.id, r),
    decreases rs.len(),
{
    if j == rs.len() - 1 {
        assert(rs.update(j, r).drop_last() =~= rs.drop_last());
        assert(rs.update(j, r).last() == r);
        assert(recs_map(rs.drop_last()).insert(rs.last().id, rs.last()).insert(r.id, r)
            =~= recs_map(rs.drop_last()).insert(r.id, r));
    } else {
        lemma_recs_map_update(rs.drop_last(), j, r);
        assert(rs.drop_last()[j] == rs[j]);
        assert(rs.update(j, r).drop_last() =~= rs.drop_last().update(j, r));
        assert(rs.update(j, r).last() == rs.last());
        assert(rs[j].id != rs.last().id);
        assert(recs_map(rs.drop_last()).insert(r.id, r).insert(rs.last().id, rs.last())
            =~= recs_map(rs.drop_last()).insert(rs.last().id, rs.last()).insert(r.id, r));
    }
}

/// Inserting a record with a fresh ID at any position inserts its ID into
/// the mapping.
pub proof fn lemma_recs_map_insert(rs: Seq<RecV>, j: int, r: RecV)
    requires
        0 <= j <= rs.len(),
        forall|i: int| 0 <= i < rs.len() ==> (#[trigger] rs[i]).id != r.id,
    ensures
        recs_map(rs.insert(j, r)) == recs_map(rs).insert(r.id, r),
    decreases rs.len(),
{
    if j == rs.len() {
        assert(rs.insert(j, r).drop_last() =~= rs);
        assert(rs.insert(j, r).last() == r);
    } else {
        assert forall|i: int| 0 <= i < rs.drop_last().len() implies (#[trigger] rs.drop_last()[i]).id
            != r.id by {
            assert(rs[i].id != r.id);
        }
        lemma_recs_map_insert(rs.drop_last(), j, r);
        assert(rs.insert(j, r).drop_last() =~= rs.drop_last().insert(j, r));
        assert(rs.insert(j, r).last() == rs.last());
        assert(rs[rs.len() - 1].id != r.id);
        assert(recs_map(rs.drop_last()).insert(r.id, r).insert(rs.last().id, rs.last())
            =~= recs_map(rs.drop_last()).insert(rs.last().id, rs.last()).insert(r.id, r));
    }
}


/// Bytes of `"id=\""` as a vector.
fn idq_vec() -> (r: Vec<u8>)
    ensures
        r@ == idq(),
{
    proof {
        reveal_strlit("id=\"");
        assert(ascii_bytes("id=\""@) =~= idq());
    }
    lit_bytes("id=\"")
}

/// Bytes of `",name=\""` as a vector.
fn name_sep_vec() -> (r: Vec<u8>)
    ensures
        r@ == name_sep(),
{
    proof {
        reveal_strlit(",name=\"");
        assert(ascii_bytes(",name=\""@) =~= name_sep());
    }
    lit_bytes(",name=\"")
}

/// Bytes of `"} "` as a vector.
fn close_sp_vec() -> (r: Vec<u8>)
    ensures
        r@ == close_sp(),
{
    proof {
        reveal_strlit("} ");
        assert(ascii_bytes("} "@) =~= close_sp());
    }
    lit_bytes("} ")
}

fn trk_run_time_vec() -> (r: Vec<u8>)
    ensures
        r@ == trk_run_time(),
{
    proof {
        reveal_strlit("bpf_prog_run_time_total");
        assert(ascii_bytes("bpf_prog_run_time_total"@) =~= trk_run_time());
    }
    lit_bytes("bpf_prog_run_time_total")
}

fn trk_execution_vec() -> (r: Vec<u8>)
    ensures
        r@ == trk_execution(),
{
    proof {
        reveal_strlit("bpf_prog_execution_total");
        assert(ascii_bytes("bpf_prog_execution_total"@) =~= trk_execution());
    }
    lit_bytes("bpf_prog_execution_total")
}

fn trk_uptime_vec() -> (r: Vec<u8>)
    ensures
        r@ == trk_uptime(),
{
    proof {
        reveal_strlit("bpf_prog_uptime_total");
        assert(ascii_bytes("bpf_prog_uptime_total"@) =~= trk_uptime());
    }
    lit_bytes("bpf_prog_uptime_total")
}

/// Looks a metric name up in the fixed name-to-field table.
fn tracked_field_of(metric: &Vec<u8>) -> (r: Option<TrackedField>)
    ensures
        r == tracked_field(metric@),
{
    let rt = trk_run_time_vec();
    if bytes_eq(metric.as_slice(), rt.as_slice()) {
        return Option::Some(TrackedField::RunTime);
    }
    let ex = trk_execution_vec();
    if bytes_eq(metric.as_slice(), ex.as_slice()) {
        return Option::Some(TrackedField::RunCount);
    }
    let up = trk_uptime_vec();
    if bytes_eq(metric.as_slice(), up.as_slice()) {
        return Option::Some(TrackedField::Uptime);
    }
    Option::None
}

/// Whether `v` continues with `pat` at position `from`.
fn starts_with_at(v: &[u8], from: usize, pat: &Vec<u8>) -> (r: bool)
    requires
        from <= v@.len(),
    ensures
        r == starts_with(v@.skip(from as int), pat@),
{
    let ghost s = v@.skip(from as int);
    let n = v.len();
    if n - from < pat.len() {
        return false;
    }
    let mut j: usize = 0;
    while j < pat.len()
        invariant
            n == v@.len(),
            from <= n,
            from + pat@.len() <= n,
            j <= pat@.len(),
            s == v@.skip(from as int),
            forall|m: int| 0 <= m < j ==> s[m] == pat@[m],
        decreases pat@.len() - j,
    {
        proof {
            assert(s[j as int] == v@[from + j]);
        }
        if v[from + j] != pat[j] {
            proof {
                assert(s.take(pat@.len() as int)[j as int] == s[j as int]);
                assert(s.take(pat@.len() as int) != pat@);
            }
            return false;
        }
        j = j + 1;
    }
    proof {
        assert(s.take(pat@.len() as int) =~= pat@);
    }
    true
}

/// One parsed sample line, with owned label values.
struct SampleData {
    metric: Vec<u8>,
    id: u32,
    type_text: Vec<u8>,
    name: Vec<u8>,
    neg: bool,
    value: u64,
}

impl View for SampleData {
    type V = SampleTupleV;

    closed spec fn view(&self) -> SampleTupleV {
        SampleTupleV {
            metric: self.metric@,
            id: self.id,
            type_text: self.type_text@,
            name: self.name@,
            neg: self.neg,
            value: self.value,
        }
    }
}

/// Parses one sample line.
fn parse_sample_exec(line: &[u8]) -> (r: Option<SampleData>)
    ensures
        match r {
            Option::Some(sd) => parse_sample_line(line@) == Option::Some(sd@),
            Option::None => parse_sample_line(line@) is None,
        },
{
    let n = line.len();
    proof {
        assert(line@.skip(0) =~= line@);
    }
    let found = find_byte_in(line, 0, 123);
    let i = match found {
        Option::None => {
            return Option::None;
        },
        Option::Some(i) => i,
    };
    if i == 0 {
        return Option::None;
    }
    let metric = slice_to_vec(slice_subrange(line, 0, i));
    proof {
        assert(metric@ =~= line@.take(i as int));
        assert(i < n);
    }
    let p1 = i + 1;
    let ghost r1 = line@.skip(p1 as int);
    let iq = idq_vec();
    if !starts_with_at(line, p1, &iq) {
        return Option::None;
    }
    proof {
        assert(r1.len() == n - p1);
        assert(p1 + 4 <= n);
    }
    let p2 = p1 + 4;
    proof {
        assert(r1.skip(4) =~= line@.skip(p2 as int));
    }
    parse_from_digits(line, p2, metric)
}

/// Parses the ID digits and the rest of the label tuple.
fn parse_from_digits(line: &[u8], p2: usize, metric: Vec<u8>) -> (r: Option<SampleData>)
    requires
        p2 <= line@.len(),
    ensures
        match r {
            Option::Some(sd) => parse_after_brace(line@.skip(p2 as int), metric@) == Option::Some(
                sd@,
            ),
            Option::None => parse_after_brace(line@.skip(p2 as int), metric@) is None,
        },
{
    let n = line.len();
    let ghost r2 = line@.skip(p2 as int);
    let (dl, fits, val) = scan_u64_digits(line, p2);
    if dl == 0 {
        return Option::None;
    }
    if !fits {
        return Option::None;
    }
    if val > 0xffff_ffffu64 {
        return Option::None;
    }
    let id = val as u32;
    proof {
        assert(p2 + dl <= n);
    }
    let p3 = p2 + dl;
    proof {
        assert(r2.skip(dl as int) =~= line@.skip(p3 as int));
    }
    parse_from_mid(line, p3, metric, id)
}

/// Parses the type label and the rest of the label tuple.
fn parse_from_mid(line: &[u8], p3: usize, metric: Vec<u8>, id: u32) -> (r: Option<SampleData>)
    requires
        p3 <= line@.len(),
    ensures
        match r {
            Option::Some(sd) => parse_after_id(line@.skip(p3 as int), metric@, id) == Option::Some(
                sd@,
            ),
            Option::None => parse_after_id(line@.skip(p3 as int), metric@, id) is None,
        },
{
    let n = line.len();
    let ghost r3 = line@.skip(p3 as int);
    let mid1 = lb_mid1_vec();
    if !starts_with_at(line, p3, &mid1) {
        return Option::None;
    }
    proof {
        assert(r3.len() == n - p3);
        assert(p3 + 16 <= n);
    }
    let p4 = p3 + 16;
    proof {
        assert(r3.skip(16) =~= line@.skip(p4 as int));
    }
    let (tt, c1) = match scan_quoted_in(line, p4) {
        Option::None => {
            return Option::None;
        },
        Option::Some(x) => x,
    };
    proof {
        assert(p4 + c1 <= n);
    }
    let p5 = p4 + c1;
    proof {
        assert(r3.skip(16).skip(c1 as int) =~= line@.skip(p5 as int));
    }
    parse_from_name(line, p5, metric, id, tt)
}

/// Parses the name label and the rest of the label tuple.
fn parse_from_name(line: &[u8], p5: usize, metric: Vec<u8>, id: u32, tt: Vec<u8>) -> (r: Option<
    SampleData,
>)
    requires
        p5 <= line@.len(),
    ensures
        match r {
            Option::Some(sd) => parse_after_type(line@.skip(p5 as int), metric@, id, tt@)
                == Option::Some(sd@),
            Option::None => parse_after_type(line@.skip(p5 as int), metric@, id, tt@) is None,
        },
{
    let n = line.len();
    let ghost r4 = line@.skip(p5 as int);
    let ns = name_sep_vec();
    if !starts_with_at(line, p5, &ns) {
        return Option::None;
    }
    proof {
        assert(r4.len() == n - p5);
        assert(p5 + 7 <= n);
    }
    let p6 = p5 + 7;
    proof {
        assert(r4.skip(7) =~= line@.skip(p6 as int));
    }
    let (nm, c2) = match scan_quoted_in(line, p6) {
        Option::None => {
            return Option::None;
        },
        Option::Some(x) => x,
    };
    proof {
        assert(p6 + c2 <= n);
    }
    let p7 = p6 + c2;
    proof {
        assert(r4.skip(7).skip(c2 as int) =~= line@.skip(p7 as int));
    }
    parse_from_close(line, p7, metric, id, tt, nm)
}

/// Parses the closing of the label tuple and the value.
fn parse_from_close(
    line: &[u8],
    p7: usize,
    metric: Vec<u8>,
    id: u32,
    tt: Vec<u8>,
    nm: Vec<u8>,
) -> (r: Option<SampleData>)
    requires
        p7 <= line@.len(),
    ensures
        match r {
            Option::Some(sd) => parse_after_name(line@.skip(p7 as int), metric@, id, tt@, nm@)
                == Option::Some(sd@),
            Option::None => parse_after_name(line@.skip(p7 as int), metric@, id, tt@, nm@) is None,
        },
{
    let n = line.len();
    let ghost r5 = line@.skip(p7 as int);
    let cs = close_sp_vec();
    if !starts_with_at(line, p7, &cs) {
        return Option::None;
    }
    proof {
        assert(r5.len() == n - p7);
        assert(p7 + 2 <= n);
    }
    let p8 = p7 + 2;
    let ghost v = line@.skip(p8 as int);
    proof {
        assert(r5.skip(2) =~= v);
    }
    let neg = p8 < n && line[p8] == 45;
    proof {
        if p8 < line@.len() {
            assert(v[0] == line@[p8 as int]);
        }
        assert(neg == (v.len() > 0 && v[0] == 45));
        assert(neg ==> p8 < n);
    }
    let ds_start = if neg {
        p8 + 1
    } else {
        p8
    };
    let ghost ds = if neg {
        v.skip(1)
    } else {
        v
    };
    proof {
        assert(ds =~= line@.skip(ds_start as int));
    }
    let (dl2, fits2, val2) = scan_u64_digits(line, ds_start);
    proof {
        lemma_digits_prefix_len_bounds(ds);
    }
    if dl2 == 0 {
        proof {
            if ds.len() > 0 {
                assert(!crate::bytes::is_digit(ds[0]));
                assert(!all_digits(ds));
            }
        }
        return Option::None;
    }
    proof {
        assert(ds_start + dl2 <= n);
    }
    if ds_start + dl2 < n {
        proof {
            assert(!crate::bytes::is_digit(ds[digits_prefix_len(ds)]));
            assert(!all_digits(ds));
        }
        return Option::None;
    }
    proof {
        assert(ds.len() == dl2);
        assert(ds.take(dl2 as int) =~= ds);
        assert(all_digits(ds));
    }
    if !fits2 {
        return Option::None;
    }
    Option::Some(SampleData { metric, id, type_text: tt, name: nm, neg, value: val2 })
}

/// What one payload line is, with owned sample data.
enum LineClass {
    Help,
    TypeL,
    Unit,
    Eof,
    OtherMeta,
    SampleL(SampleData),
    Bad,
}

/// The value of an exec line class.
spec fn class_view(c: &LineClass) -> LineClassV {
    match c {
        LineClass::Help => LineClassV::Help,
        LineClass::TypeL => LineClassV::TypeL,
        LineClass::Unit => LineClassV::Unit,
        LineClass::Eof => LineClassV::Eof,
        LineClass::OtherMeta => LineClassV::OtherMeta,
        LineClass::SampleL(sd) => LineClassV::SampleL(sd@),
        LineClass::Bad => LineClassV::Bad,
    }
}

/// Classifies one line.
fn classify_exec(line: &[u8]) -> (r: LineClass)
    ensures
        classify_line(line@) == class_view(&r),
{
    proof {
        assert(line@.skip(0) =~= line@);
    }
    let em = eof_marker_vec();
    if bytes_eq(line, em.as_slice()) {
        return LineClass::Eof;
    }
    let hp = help_prefix_vec();
    if starts_with_at(line, 0, &hp) {
        return LineClass::Help;
    }
    let tp = type_prefix_vec();
    if starts_with_at(line, 0, &tp) {
        return LineClass::TypeL;
    }
    let up = unit_prefix_vec();
    if starts_with_at(line, 0, &up) {
        return LineClass::Unit;
    }
    if line.len() > 0 && line[0] == 35 {
        return LineClass::OtherMeta;
    }
    match parse_sample_exec(line) {
        Option::Some(sd) => LineClass::SampleL(sd),
        Option::None => LineClass::Bad,
    }
}

/// Sets one tracked field of a record.
fn set_field(r: &mut EntityRecord, f: TrackedField, v: u64)
    ensures
        final(r)@ == rec_set(old(r)@, f, v),
{
    match f {
        TrackedField::RunTime => {
            r.run_time_ns = v;
        },
        TrackedField::RunCount => {
            r.run_cnt = v;
        },
        TrackedField::Uptime => {
            r.uptime_ns = v;
        },
    }
}

/// Folds one tracked sample into the sorted record list.
fn apply_tracked_exec(recs: &mut Vec<EntityRecord>, sd: SampleData, f: TrackedField)
    requires
        sorted_by_id(recs_seq(old(recs)@)),
    ensures
        sorted_by_id(recs_seq(final(recs)@)),
        recs_map(recs_seq(final(recs)@)) == apply_tracked(recs_map(recs_seq(old(recs)@)), sd@, f),
{
    let ghost rs0 = recs_seq(recs@);
    proof {
        assert forall|i: int, k: int|
            #![trigger rs0[i], rs0[k]]
            0 <= i < k < rs0.len() implies rs0[i].id != rs0[k].id by {
            assert(rs0[i].id < rs0[k].id);
        }
    }
    let mut idx: usize = 0;
    while idx < recs.len() && recs[idx].id < sd.id
        invariant
            idx <= recs@.len(),
            rs0 == recs_seq(recs@),
            forall|m: int| 0 <= m < idx ==> (#[trigger] rs0[m]).id < sd.id,
        decreases recs@.len() - idx,
    {
        proof {
            assert(rs0[idx as int] == recs@[idx as int]@);
        }
        idx = idx + 1;
    }
    proof {
        if idx < recs@.len() {
            assert(rs0[idx as int] == recs@[idx as int]@);
        }
    }
    if idx < recs.len() && recs[idx].id == sd.id {
        proof {
            lemma_recs_map_contains(rs0, sd.id as u32);
            assert(rs0[idx as int].id == sd@.id);
            lemma_recs_map_at(rs0, idx as int);
        }
        let mut r = recs.remove(idx);
        set_field(&mut r, f, sd.value);
        recs.insert(idx, r);
        proof {
            let rnew = rec_set(rs0[idx as int], f, sd@.value);
            assert(recs_seq(recs@) =~= rs0.update(idx as int, rnew));
            lemma_recs_map_update(rs0, idx as int, rnew);
            assert forall|i: int, k: int|
                #![trigger recs_seq(recs@)[i], recs_seq(recs@)[k]]
                0 <= i < k < recs_seq(recs@).len() implies recs_seq(recs@)[i].id < recs_seq(
                recs@,
            )[k].id by {
                assert(rs0[i].id < rs0[k].id);
            }
        }
    } else {
        proof {
            assert forall|m: int| 0 <= m < rs0.len() implies (#[trigger] rs0[m]).id != sd@.id by {
                if m >= idx {
                    assert(rs0[idx as int].id >= sd@.id || idx >= rs0.len());
                    if idx < rs0.len() {
                        if m > idx {
                            assert(rs0[idx as int].id < rs0[m].id);
                        }
                    }
                }
            }
            lemma_recs_map_contains(rs0, sd.id as u32);
            assert(!recs_map(rs0).dom().contains(sd@.id));
        }
        let mut r = EntityRecord {
            id: sd.id,
            type_text: sd.type_text,
            name: sd.name,
            run_time_ns: 0,
            prev_run_time_ns: 0,
            run_cnt: 0,
            prev_run_cnt: 0,
            uptime_ns: 0,
        };
        proof {
            assert(r@ == rec_init(sd@));
        }
        set_field(&mut r, f, sd.value);
        let ghost rnew = r@;
        recs.insert(idx, r);
        proof {
            assert(recs_seq(recs@) =~= rs0.insert(idx as int, rnew));
            lemma_recs_map_insert(rs0, idx as int, rnew);
            let rsn = recs_seq(recs@);
            assert forall|i: int, k: int|
                #![trigger rsn[i], rsn[k]]
                0 <= i < k < rsn.len() implies rsn[i].id < rsn[k].id by {
                if k < idx {
                    assert(rsn[i] == rs0[i] && rsn[k] == rs0[k]);
                } else if i > idx {
                    assert(rsn[i] == rs0[i - 1] && rsn[k] == rs0[k - 1]);
                } else if i < idx && k == idx {
                    assert(rsn[i] == rs0[i] && rsn[k] == rnew);
                    assert(rs0[i].id < sd@.id);
                } else if i == idx && k > idx {
                    assert(rsn[i] == rnew && rsn[k] == rs0[k - 1]);
                    assert(rs0[k - 1].id > sd@.id || rs0[k - 1].id == sd@.id);
                    assert(rs0[k - 1].id != sd@.id);
                } else if i < idx && k > idx {
                    assert(rsn[i] == rs0[i] && rsn[k] == rs0[k - 1]);
                    assert(rs0[i].id < sd@.id);
                    assert(rs0[k - 1].id > sd@.id || rs0[k - 1].id == sd@.id);
                    assert(rs0[k - 1].id != sd@.id);
                }
            }
        }
    }
}

/// The decoder state between lines.
struct DecoderState {
    phase: Phase,
    recs: Vec<EntityRecord>,
}

impl View for DecoderState {
    type V = DecStateV;

    closed spec fn view(&self) -> DecStateV {
        DecStateV { phase: self.phase, recs: recs_map(recs_seq(self.recs@)) }
    }
}

/// Applies one complete line to the decoder state.
fn apply_line(line: &[u8], st: &mut DecoderState) -> (r: Option<ParseError>)
    requires
        sorted_by_id(recs_seq(old(st).recs@)),
    ensures
        match step_line(old(st)@, line@) {
            StepResV::Next(s2) => r is None && final(st)@ == s2 && sorted_by_id(
                recs_seq(final(st).recs@),
            ),
            StepResV::Fail(e) => r == Option::Some(e) && *final(st) == *old(st),
        },
{
    match st.phase {
        Phase::Done => {
            return Option::Some(ParseError::TrailingData);
        },
        _ => {},
    }
    let cls = classify_exec(line);
    match st.phase {
        Phase::Done => Option::Some(ParseError::TrailingData),
        Phase::Idle => match cls {
            LineClass::Eof => {
                st.phase = Phase::Done;
                Option::None
            },
            LineClass::Help => {
                st.phase = Phase::AfterHelp;
                Option::None
            },
            _ => Option::Some(ParseError::BadMetadata),
        },
        Phase::AfterHelp => match cls {
            LineClass::TypeL => {
                st.phase = Phase::Body(true);
                Option::None
            },
            _ => Option::Some(ParseError::BadMetadata),
        },
        Phase::Body(unit_allowed) => match cls {
            LineClass::Help => {
                st.phase = Phase::AfterHelp;
                Option::None
            },
            LineClass::Eof => {
                st.phase = Phase::Done;
                Option::None
            },
            LineClass::Unit => {
                if unit_allowed {
                    st.phase = Phase::Body(false);
                    Option::None
                } else {
                    Option::Some(ParseError::BadMetadata)
                }
            },
            LineClass::TypeL => Option::Some(ParseError::BadMetadata),
            LineClass::OtherMeta => Option::Some(ParseError::BadMetadata),
            LineClass::SampleL(sd) => {
                match tracked_field_of(&sd.metric) {
                    Option::None => {
                        st.phase = Phase::Body(false);
                        Option::None
                    },
                    Option::Some(f) => {
                        if sd.neg {
                            Option::Some(ParseError::NegativeCounter)
                        } else {
                            st.phase = Phase::Body(false);
                            apply_tracked_exec(&mut st.recs, sd, f);
                            Option::None
                        }
                    },
                }
            },
            LineClass::Bad => Option::Some(ParseError::BadSampleLine),
        },
    }
}

/// The decoder's verdict on an input.
pub enum DecodeOutcome {
    /// The payload was complete and well-formed: one record per entity ID,
    /// in ascending ID order.
    Records(Vec<EntityRecord>),
    /// The input is not a complete payload yet; feed it again with more
    /// bytes appended.
    NeedMoreInput,
    /// The payload is malformed.
    Failed(ParseError),
}

/// Decodes a payload that may still be arriving: a payload received in
/// chunks can be re-fed here until the end-of-payload marker arrives,
/// getting the need-more-input verdict rather than an error while the
/// payload is merely incomplete. The records come back sorted by entity ID,
/// so downstream consumers get deterministic iteration.
pub fn decode_stream(input: &[u8]) -> (r: DecodeOutcome)
    ensures
        match spec_decode(input@) {
            DecOutcomeV::Finished(m) => match r {
                DecodeOutcome::Records(v) => recs_map(recs_seq(v@)) == m && sorted_by_id(
                    recs_seq(v@),
                ),
                _ => false,
            },
            DecOutcomeV::Incomplete => r is NeedMoreInput,
            DecOutcomeV::Fail(e) => r == DecodeOutcome::Failed(e),
        },
{
    let n = input.len();
    let mut st = DecoderState { phase: Phase::Idle, recs: Vec::new() };
    let mut pos: usize = 0;
    proof {
        assert(recs_seq(st.recs@) =~= Seq::<RecV>::empty());
        assert(recs_map(recs_seq(st.recs@)) =~= Map::<u32, RecV>::empty());
        assert(st@ == init_state());
        assert(input@.skip(0) =~= input@);
    }
    loop
        invariant
            n == input@.len(),
            pos <= n,
            sorted_by_id(recs_seq(st.recs@)),
            dec_from(input@, init_state()) == dec_from(input@.skip(pos as int), st@),
        decreases input@.len() - pos,
    {
        let done = match st.phase {
            Phase::Done => true,
            _ => false,
        };
        if done {
            if pos == input.len() {
                proof {
                    assert(input@.skip(pos as int).len() == 0);
                }
                return DecodeOutcome::Records(st.recs);
            } else {
                proof {
                    assert(input@.skip(pos as int).len() > 0);
                }
                return DecodeOutcome::Failed(ParseError::TrailingData);
            }
        }
        match find_byte_in(input, pos, 10) {
            Option::None => {
                return DecodeOutcome::NeedMoreInput;
            },
            Option::Some(nl) => {
                let ghost rest = input@.skip(pos as int);
                proof {
                    assert(find_byte(rest, 10) == nl - pos);
                    assert(nl - pos < rest.len());
                }
                let line = slice_subrange(input, pos, nl);
                proof {
                    assert(line@ =~= rest.take(nl - pos));
                }
                let ghost st_before = st@;
                match apply_line(line, &mut st) {
                    Option::Some(e) => {
                        return DecodeOutcome::Failed(e);
                    },
                    Option::None => {
                        proof {
                            assert(input@.skip(nl + 1) =~= rest.skip(nl - pos + 1));
                            assert(dec_from(rest, st_before) == dec_from(
                                input@.skip(nl + 1),
                                st@,
                            ));
                        }
                        proof {
                            assert(nl < n);
                        }
                        pos = nl + 1;
                    },
                }
            },
        }
    }
}

/// Decodes a complete payload. A payload that does not end with the
/// end-of-payload marker line is refused.
pub fn decode_complete(input: &[u8]) -> (r: Result<Vec<EntityRecord>, ParseError>)
    ensures
        match spec_decode(input@) {
            DecOutcomeV::Finished(m) => match r {
                Result::Ok(v) => recs_map(recs_seq(v@)) == m && sorted_by_id(recs_seq(v@)),
                Result::Err(_) => false,
            },
            DecOutcomeV::Incomplete => r == Result::<Vec<EntityRecord>, ParseError>::Err(
                ParseError::MissingEndMarker,
            ),
            DecOutcomeV::Fail(e) => r == Result::<Vec<EntityRecord>, ParseError>::Err(e),
        },
{
    match decode_stream(input) {
        DecodeOutcome::Records(v) => Result::Ok(v),
        DecodeOutcome::NeedMoreInput => Result::Err(ParseError::MissingEndMarker),
        DecodeOutcome::Failed(e) => Result::Err(e),
    }
}

} // verus!
