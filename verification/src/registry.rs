//! The metric registry: one family per registered metric kind, each family a
//! mapping from label set to current value, plus the exposition metadata the
//! encoder needs. Registration order is kept, so encoding is deterministic.
use vstd::prelude::*;

use crate::errors::ConfigError;
use crate::kinds::{MetricKind, MetricType};
use crate::labels::{LabelSet, LabelSetV};

verus! {

/// The current value of one labeled instance: a counter count or a gauge level.
#[derive(Clone, Copy, Debug, PartialEq, Eq, Structural)]
pub enum MetricValue {
    /// A counter value, an unsigned accumulated count.
    Count(u64),
    /// A gauge value, a signed point-in-time level.
    Level(i64),
}

/// Mathematical value of a [`Sample`].
pub struct SampleV {
    pub labels: LabelSetV,
    pub value: MetricValue,
}

/// One labeled instance's current value within a family.
pub struct Sample {
    pub labels: LabelSet,
    pub value: MetricValue,
}

impl View for Sample {
    type V = SampleV;

    open spec fn view(&self) -> SampleV {
        SampleV { labels: self.labels@, value: self.value }
    }
}

/// Mathematical value of a [`Family`].
pub struct FamilyV {
    pub kind: MetricKind,
    pub mtype: MetricType,
    pub name: Seq<u8>,
    pub help: Seq<u8>,
    pub unit: Option<Seq<u8>>,
    pub samples: Seq<SampleV>,
}

/// The set of labeled values for one registered metric kind, together with
/// its exposition metadata. Families are created at registration time and
/// live for the registry's lifetime; their samples are created during
/// collection and discarded at export.
pub struct Family {
    pub kind: MetricKind,
    pub mtype: MetricType,
    pub name: Vec<u8>,
    pub help: Vec<u8>,
    pub unit: Option<Vec<u8>>,
    pub samples: Vec<Sample>,
}

/// The values of a sequence of samples.
pub open spec fn samples_view(s: Seq<Sample>) -> Seq<SampleV> {
    Seq::new(s.len(), |i: int| s[i]@)
}

/// The value of an optional unit.
pub open spec fn unit_view(u: Option<Vec<u8>>) -> Option<Seq<u8>> {
    match u {
        Option::None => Option::None,
        Option::Some(v) => Option::Some(v@),
    }
}

impl View for Family {
    type V = FamilyV;

    open spec fn view(&self) -> FamilyV {
        FamilyV {
            kind: self.kind,
            mtype: self.mtype,
            name: self.name@,
            help: self.help@,
            unit: unit_view(self.unit),
            samples: samples_view(self.samples@),
        }
    }
}

/// Whether some family in `fams` is registered under `k`.
pub open spec fn has_kind(fams: Seq<FamilyV>, k: MetricKind) -> bool {
    exists|i: int| 0 <= i < fams.len() && fams[i].kind == k
}

/// Whether some sample in `ss` carries the label set `l`.
pub open spec fn has_label(ss: Seq<SampleV>, l: LabelSetV) -> bool {
    exists|i: int| 0 <= i < ss.len() && ss[i].labels == l
}

/// Last-write-wins update of one family's samples: an existing entry for `l`
/// is overwritten in place, a new entry is appended at the end.
pub open spec fn upsert_sample(ss: Seq<SampleV>, l: LabelSetV, v: MetricValue) -> Seq<SampleV>
    decreases ss.len(),
{
    if ss.len() == 0 {
        seq![SampleV { labels: l, value: v }]
    } else if ss[0].labels == l {
        seq![SampleV { labels: l, value: v }] + ss.skip(1)
    } else {
        seq![ss[0]] + upsert_sample(ss.skip(1), l, v)
    }
}

/// The family `f` with the entry for `l` set to `v`.
pub open spec fn fam_upd(f: FamilyV, l: LabelSetV, v: MetricValue) -> FamilyV {
    FamilyV { samples: upsert_sample(f.samples, l, v), ..f }
}

/// Update of a whole registry state: the first family registered under `k`
/// gets the entry for `l` set to `v`, provided its metric type is `mt`;
/// otherwise the state is unchanged. An update for an unregistered kind is
/// a no-op, never an error.
pub open spec fn upd_value(
    fams: Seq<FamilyV>,
    k: MetricKind,
    mt: MetricType,
    l: LabelSetV,
    v: MetricValue,
) -> Seq<FamilyV>
    decreases fams.len(),
{
    if fams.len() == 0 {
        fams
    } else if fams[0].kind == k {
        if fams[0].mtype == mt {
            seq![fam_upd(fams[0], l, v)] + fams.skip(1)
        } else {
            fams
        }
    } else {
        seq![fams[0]] + upd_value(fams.skip(1), k, mt, l, v)
    }
}

/// Every family with its samples discarded and its metadata kept.
pub open spec fn clear_all(fams: Seq<FamilyV>) -> Seq<FamilyV> {
    Seq::new(fams.len(), |i: int| FamilyV { samples: Seq::empty(), ..fams[i] })
}

/// An update for a kind that no family is registered under leaves the
/// registry state unchanged.
pub proof fn lemma_upd_value_absent(
    fams: Seq<FamilyV>,
    k: MetricKind,
    mt: MetricType,
    l: LabelSetV,
    v: MetricValue,
)
    requires
        !has_kind(fams, k),
    ensures
        upd_value(fams, k, mt, l, v) == fams,
    decreases fams.len(),
{
    if fams.len() > 0 {
        assert(fams[0].kind != k);
        assert(!has_kind(fams.skip(1), k)) by {
            if has_kind(fams.skip(1), k) {
                let i = choose|i: int| 0 <= i < fams.skip(1).len() && fams.skip(1)[i].kind == k;
                assert(fams[i + 1].kind == k);
            }
        }
        lemma_upd_value_absent(fams.skip(1), k, mt, l, v);
        assert(seq![fams[0]] + fams.skip(1) =~= fams);
    }
}

/// An update for the kind registered at position `i` (the first such
/// position) rewrites exactly that family, or nothing when the metric type
/// does not match.
pub proof fn lemma_upd_value_at(
    fams: Seq<FamilyV>,
    k: MetricKind,
    mt: MetricType,
    l: LabelSetV,
    v: MetricValue,
    i: int,
)
    requires
        0 <= i < fams.len(),
        fams[i].kind == k,
        forall|j: int| 0 <= j < i ==> fams[j].kind != k,
    ensures
        upd_value(fams, k, mt, l, v) == if fams[i].mtype == mt {
            fams.update(i, fam_upd(fams[i], l, v))
        } else {
            fams
        },
    decreases i,
{
    if i == 0 {
        if fams[0].mtype == mt {
            assert(seq![fam_upd(fams[0], l, v)] + fams.skip(1) =~= fams.update(
                0,
                fam_upd(fams[0], l, v),
            ));
        }
    } else {
        assert(fams[0].kind != k);
        lemma_upd_value_at(fams.skip(1), k, mt, l, v, i - 1);
        assert(fams.skip(1)[i - 1] == fams[i]);
        if fams[i].mtype == mt {
            assert(seq![fams[0]] + fams.skip(1).update(i - 1, fam_upd(fams[i], l, v)) =~= fams.update(
                i,
                fam_upd(fams[i], l, v),
            ));
        } else {
            assert(seq![fams[0]] + fams.skip(1) =~= fams);
        }
    }
}

/// Upserting a label set that no sample carries appends a new entry.
pub proof fn lemma_upsert_absent(ss: Seq<SampleV>, l: LabelSetV, v: MetricValue)
    requires
        !has_label(ss, l),
    ensures
        upsert_sample(ss, l, v) == ss.push(SampleV { labels: l, value: v }),
    decreases ss.len(),
{
    if ss.len() == 0 {
        assert(upsert_sample(ss, l, v) =~= ss.push(SampleV { labels: l, value: v }));
    } else {
        assert(ss[0].labels != l);
        assert(!has_label(ss.skip(1), l)) by {
            if has_label(ss.skip(1), l) {
                let i = choose|i: int| 0 <= i < ss.skip(1).len() && ss.skip(1)[i].labels == l;
                assert(ss[i + 1].labels == l);
            }
        }
        lemma_upsert_absent(ss.skip(1), l, v);
        assert(seq![ss[0]] + ss.skip(1).push(SampleV { labels: l, value: v }) =~= ss.push(
            SampleV { labels: l, value: v },
        ));
    }
}

/// Upserting a label set carried by the sample at position `j` (the first
/// such position) overwrites exactly that entry.
pub proof fn lemma_upsert_at(ss: Seq<SampleV>, l: LabelSetV, v: MetricValue, j: int)
    requires
        0 <= j < ss.len(),
        ss[j].labels == l,
        forall|m: int| 0 <= m < j ==> ss[m].labels != l,
    ensures
        upsert_sample(ss, l, v) == ss.update(j, SampleV { labels: l, value: v }),
    decreases j,
{
    if j == 0 {
        assert(seq![SampleV { labels: l, value: v }] + ss.skip(1) =~= ss.update(
            0,
            SampleV { labels: l, value: v },
        ));
    } else {
        assert(ss[0].labels != l);
        lemma_upsert_at(ss.skip(1), l, v, j - 1);
        assert(ss.skip(1)[j - 1] == ss[j]);
        assert(seq![ss[0]] + ss.skip(1).update(j - 1, SampleV { labels: l, value: v }) =~= ss.update(
            j,
            SampleV { labels: l, value: v },
        ));
    }
}

/// The registry: a list of families in registration order. A metric kind is
/// registered at most once; attempts to register it again are refused.
pub struct MetricRegistry {
    pub families: Vec<Family>,
}

impl View for MetricRegistry {
    type V = Seq<FamilyV>;

    open spec fn view(&self) -> Seq<FamilyV> {
        Seq::new(self.families@.len(), |i: int| self.families@[i]@)
    }
}

impl MetricRegistry {
    /// A registry with no families.
    pub fn new() -> (r: MetricRegistry)
        ensures
            r@ == Seq::<FamilyV>::empty(),
    {
        let r = MetricRegistry { families: Vec::new() };
        proof {
            assert(r@ =~= Seq::<FamilyV>::empty());
        }
        r
    }

    /// How many families are registered.
    pub fn family_count(&self) -> (r: usize)
        ensures
            r == self@.len(),
    {
        self.families.len()
    }

    /// Whether `kind` is registered.
    pub fn kind_registered(&self, kind: MetricKind) -> (r: bool)
        ensures
            r == has_kind(self@, kind),
    {
        match self.find_kind(kind) {
            Option::Some(_) => true,
            Option::None => false,
        }
    }

    /// The position of the family registered under `kind`, if any.
    fn find_kind(&self, kind: MetricKind) -> (r: Option<usize>)
        ensures
            match r {
                Option::Some(i) => i < self@.len() && self@[i as int].kind == kind && (forall|j: int|
                    0 <= j < i ==> self@[j].kind != kind),
                Option::None => !has_kind(self@, kind),
            },
    {
        let mut i: usize = 0;
        while i < self.families.len()
            invariant
                i <= self@.len(),
                forall|j: int| 0 <= j < i ==> self@[j].kind != kind,
            decreases self@.len() - i,
        {
            if self.families[i].kind == kind {
                return Option::Some(i);
            }
            i = i + 1;
        }
        Option::None
    }

    fn register_family(
        &mut self,
        kind: MetricKind,
        mtype: MetricType,
        name: Vec<u8>,
        help: Vec<u8>,
        unit: Option<Vec<u8>>,
    ) -> (r: Result<(), ConfigError>)
        ensures
            match r {
                Result::Ok(()) => !has_kind(old(self)@, kind) && final(self)@ == old(self)@.push(
                    FamilyV {
                        kind,
                        mtype,
                        name: name@,
                        help: help@,
                        unit: unit_view(unit),
                        samples: Seq::empty(),
                    },
                ),
                Result::Err(e) => has_kind(old(self)@, kind) && final(self)@ == old(self)@ && e
                    == ConfigError::DuplicateKind,
            },
    {
        match self.find_kind(kind) {
            Option::Some(_) => Result::Err(ConfigError::DuplicateKind),
            Option::None => {
                let fam = Family { kind, mtype, name, help, unit, samples: Vec::new() };
                proof {
                    assert(samples_view(fam.samples@) =~= Seq::<SampleV>::empty());
                }
                self.families.push(fam);
                proof {
                    assert(self@ =~= old(self)@.push(
                        FamilyV {
                            kind,
                            mtype,
                            name: name@,
                            help: help@,
                            unit: unit_view(unit),
                            samples: Seq::empty(),
                        },
                    ));
                }
                Result::Ok(())
            },
        }
    }

    /// Binds `kind` to an empty counter family with the given exposition
    /// metadata. Refused when `kind` is already registered.
    pub fn register_counter(
        &mut self,
        kind: MetricKind,
        name: Vec<u8>,
        help: Vec<u8>,
        unit: Option<Vec<u8>>,
    ) -> (r: Result<(), ConfigError>)
        ensures
            match r {
                Result::Ok(()) => !has_kind(old(self)@, kind) && final(self)@ == old(self)@.push(
                    FamilyV {
                        kind,
                        mtype: MetricType::Counter,
                        name: name@,
                        help: help@,
                        unit: unit_view(unit),
                        samples: Seq::empty(),
                    },
                ),
                Result::Err(e) => has_kind(old(self)@, kind) && final(self)@ == old(self)@ && e
                    == ConfigError::DuplicateKind,
            },
    {
        self.register_family(kind, MetricType::Counter, name, help, unit)
    }

    /// Binds `kind` to an empty gauge family with the given exposition
    /// metadata. Refused when `kind` is already registered.
    pub fn register_gauge(
        &mut self,
        kind: MetricKind,
        name: Vec<u8>,
        help: Vec<u8>,
        unit: Option<Vec<u8>>,
    ) -> (r: Result<(), ConfigError>)
        ensures
            match r {
                Result::Ok(()) => !has_kind(old(self)@, kind) && final(self)@ == old(self)@.push(
                    FamilyV {
                        kind,
                        mtype: MetricType::Gauge,
                        name: name@,
                        help: help@,
                        unit: unit_view(unit),
                        samples: Seq::empty(),
                    },
                ),
                Result::Err(e) => has_kind(old(self)@, kind) && final(self)@ == old(self)@ && e
                    == ConfigError::DuplicateKind,
            },
    {
        self.register_family(kind, MetricType::Gauge, name, help, unit)
    }

    fn update_value(
        &mut self,
        kind: MetricKind,
        mtype: MetricType,
        labels: &LabelSet,
        value: MetricValue,
    )
        ensures
            final(self)@ == upd_value(old(self)@, kind, mtype, labels@, value),
    {
        let found = self.find_kind(kind);
        match found {
            Option::None => {
                proof {
                    lemma_upd_value_absent(self@, kind, mtype, labels@, value);
                }
            },
            Option::Some(i) => {
                proof {
                    lemma_upd_value_at(self@, kind, mtype, labels@, value, i as int);
                }
                let fam = &self.families[i];
                let type_matches = fam.mtype == mtype;
                if type_matches {
                    let mut fam = self.families.remove(i);
                    upsert_into(&mut fam.samples, labels, value);
                    self.families.insert(i, fam);
                    proof {
                        assert(self@ =~= old(self)@.update(
                            i as int,
                            fam_upd(old(self)@[i as int], labels@, value),
                        ));
                    }
                }
            },
        }
    }

    /// Sets the counter registered under `kind` to `value` for `labels`,
    /// overwriting any value written earlier in the same cycle. A no-op when
    /// `kind` is unregistered or registered as a gauge.
    pub fn update_counter(&mut self, kind: MetricKind, labels: &LabelSet, value: u64)
        ensures
            final(self)@ == upd_value(
                old(self)@,
                kind,
                MetricType::Counter,
                labels@,
                MetricValue::Count(value),
            ),
    {
        self.update_value(kind, MetricType::Counter, labels, MetricValue::Count(value))
    }

    /// Sets the gauge registered under `kind` to `value` for `labels`,
    /// overwriting any value written earlier in the same cycle. A no-op when
    /// `kind` is unregistered or registered as a counter.
    pub fn update_gauge(&mut self, kind: MetricKind, labels: &LabelSet, value: i64)
        ensures
            final(self)@ == upd_value(
                old(self)@,
                kind,
                MetricType::Gauge,
                labels@,
                MetricValue::Level(value),
            ),
    {
        self.update_value(kind, MetricType::Gauge, labels, MetricValue::Level(value))
    }

    /// Discards every family's samples and keeps the families themselves:
    /// each exported scrape represents only the most recent collection.
    pub fn clear_metrics(&mut self)
        ensures
            final(self)@ == clear_all(old(self)@),
    {
        let mut i: usize = 0;
        while i < self.families.len()
            invariant
                self.families@.len() == old(self).families@.len(),
                forall|j: int|
                    0 <= j < i ==> #[trigger] self.families@[j]@ == (FamilyV {
                        samples: Seq::empty(),
                        ..old(self)@[j]
                    }),
                forall|j: int|
                    i <= j < self.families@.len() ==> #[trigger] self.families@[j] == old(
                        self,
                    ).families@[j],
            decreases self.families@.len() - i,
        {
            proof {
                assert(self.families@[i as int] == old(self).families@[i as int]);
            }
            let mut fam = self.families.remove(i);
            fam.samples = Vec::new();
            proof {
                assert(samples_view(fam.samples@) =~= Seq::<SampleV>::empty());
            }
            self.families.insert(i, fam);
            i = i + 1;
        }
        proof {
            assert(self@ =~= clear_all(old(self)@));
        }
    }
}

impl Default for MetricRegistry {
    /// A registry with no families.
    fn default() -> (r: MetricRegistry)
        ensures
            r@ == Seq::<FamilyV>::empty(),
    {
        MetricRegistry::new()
    }
}

/// Applies the last-write-wins upsert to one family's sample list.
fn upsert_into(samples: &mut Vec<Sample>, labels: &LabelSet, value: MetricValue)
    ensures
        samples_view(final(samples)@) == upsert_sample(samples_view(old(samples)@), labels@, value),
{
    let mut j: usize = 0;
    while j < samples.len()
        invariant
            j <= samples@.len(),
            samples@ == old(samples)@,
            forall|m: int| 0 <= m < j ==> samples@[m]@.labels != labels@,
        decreases samples@.len() - j,
    {
        if samples[j].labels.same_as(labels) {
            proof {
                lemma_upsert_at(samples_view(samples@), labels@, value, j as int);
            }
            let new_sample = Sample { labels: labels.duplicate(), value };
            let _ = samples.remove(j);
            samples.insert(j, new_sample);
            proof {
                assert(samples_view(samples@) =~= samples_view(old(samples)@).update(
                    j as int,
                    SampleV { labels: labels@, value },
                ));
            }
            return ;
        }
        j = j + 1;
    }
    proof {
        assert(!has_label(samples_view(samples@), labels@));
        lemma_upsert_absent(samples_view(samples@), labels@, value);
    }
    samples.push(Sample { labels: labels.duplicate(), value });
    proof {
        assert(samples_view(samples@) =~= samples_view(old(samples)@).push(
            SampleV { labels: labels@, value },
        ));
    }
}

} // verus!
