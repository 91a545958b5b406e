//! The accumulation buffer of a backend: one report per metadata, filled by
//! the sampler and drained by the agent on every tick.

use crate::error::{PyroscopeError, SerializationReason};
use crate::report::{
    count_of, lemma_recorded_count, lemma_recorded_wf, lines_wf, recorded, Line, Report,
    ReportView,
};
use crate::stack::{folded, same_metadata, MetadataView, StackTrace};
use vstd::prelude::*;

verus! {

/// The number of samples buffered for `key` under a metadata equal to `m`.
pub open spec fn buffer_count(reports: Seq<ReportView>, m: MetadataView, key: Seq<char>) -> nat
    decreases reports.len(),
{
    if reports.len() == 0 {
        0
    } else {
        (if same_metadata(reports[0].metadata, m) {
            count_of(reports[0].lines, key)
        } else {
            0
        }) + buffer_count(reports.drop_first(), m, key)
    }
}

/// Whether the buffer holds a report for a metadata equal to `m`.
pub open spec fn has_metadata(reports: Seq<ReportView>, m: MetadataView) -> bool {
    exists|i: int| 0 <= i < reports.len() && same_metadata((#[trigger] reports[i]).metadata, m)
}

/// The buffer after one more sample of `key` under metadata `m`: it goes to
/// the report of that metadata where there is one, else into a new report
/// behind the others.
pub open spec fn buffer_recorded(reports: Seq<ReportView>, m: MetadataView, key: Seq<char>) -> Seq<
    ReportView,
>
    decreases reports.len(),
{
    if reports.len() == 0 {
        seq![ReportView { metadata: m, lines: seq![(key, 1nat)] }]
    } else if same_metadata(reports[0].metadata, m) {
        seq![
            ReportView { metadata: reports[0].metadata, lines: recorded(reports[0].lines, key, 1) },
        ] + reports.drop_first()
    } else {
        seq![reports[0]] + buffer_recorded(reports.drop_first(), m, key)
    }
}

/// A sample as the laws below see it: its metadata and its folded stack.
pub type Sample = (MetadataView, Seq<char>);

/// The buffer after the samples have been recorded in order.
pub open spec fn buffer_after(reports: Seq<ReportView>, samples: Seq<Sample>) -> Seq<ReportView>
    decreases samples.len(),
{
    if samples.len() == 0 {
        reports
    } else {
        buffer_recorded(
            buffer_after(reports, samples.drop_last()),
            samples.last().0,
            samples.last().1,
        )
    }
}

/// Whether the sample at `k` finds its counter at the limit, after the
/// samples before it have been recorded into `start`.
pub open spec fn overflows_at(start: Seq<ReportView>, samples: Seq<Sample>, k: int) -> bool {
    buffer_count(buffer_after(start, samples.take(k)), samples[k].0, samples[k].1) >= u64::MAX
}

/// Whether every sample of the run can be recorded into `start`.
pub open spec fn all_fit(start: Seq<ReportView>, samples: Seq<Sample>) -> bool {
    forall|k: int| 0 <= k < samples.len() ==> !#[trigger] overflows_at(start, samples, k)
}

/// Whether `k` is the first sample of the run that cannot be recorded.
pub open spec fn first_overflow(start: Seq<ReportView>, samples: Seq<Sample>, k: int) -> bool {
    &&& 0 <= k < samples.len()
    &&& overflows_at(start, samples, k)
    &&& forall|j: int| 0 <= j < k ==> !#[trigger] overflows_at(start, samples, j)
}

/// How many of the samples have the stack `key` and a metadata equal to `m`.
pub open spec fn occurrences(samples: Seq<Sample>, m: MetadataView, key: Seq<char>) -> nat
    decreases samples.len(),
{
    if samples.len() == 0 {
        0
    } else {
        occurrences(samples.drop_last(), m, key) + if same_metadata(samples.last().0, m)
            && samples.last().1 == key {
            1nat
        } else {
            0nat
        }
    }
}

/// The invariant of a buffer: no two reports for equal metadata, and every
/// report well formed.
pub open spec fn buffer_wf(reports: Seq<ReportView>) -> bool {
    &&& forall|i: int, j: int|
        0 <= i < j < reports.len() ==> !same_metadata(
            (#[trigger] reports[i]).metadata,
            (#[trigger] reports[j]).metadata,
        )
    &&& forall|i: int| 0 <= i < reports.len() ==> lines_wf((#[trigger] reports[i]).lines)
}

/// One more sample raises the count of its own stack and metadata by one
/// and leaves every other count alone.
pub proof fn lemma_buffer_recorded_count(
    reports: Seq<ReportView>,
    m: MetadataView,
    key: Seq<char>,
    m2: MetadataView,
    k2: Seq<char>,
)
    ensures
        buffer_count(buffer_recorded(reports, m, key), m2, k2) == buffer_count(reports, m2, k2)
            + if same_metadata(m, m2) && k2 == key {
            1nat
        } else {
            0nat
        },
    decreases reports.len(),
{
    let r = buffer_recorded(reports, m, key);
    if reports.len() == 0 {
        assert(r[0] == ReportView { metadata: m, lines: seq![(key, 1nat)] });
        assert(r.drop_first() =~= Seq::<ReportView>::empty());
        assert(buffer_count(Seq::<ReportView>::empty(), m2, k2) == 0);
        let one: Seq<Line> = seq![(key, 1nat)];
        assert(one.drop_first() =~= Seq::<Line>::empty());
        assert(count_of(Seq::<Line>::empty(), k2) == 0);
        assert(count_of(one, k2) == if k2 == key {
            1nat
        } else {
            0nat
        });
    } else if same_metadata(reports[0].metadata, m) {
        assert(r[0].metadata == reports[0].metadata);
        assert(r[0].lines == recorded(reports[0].lines, key, 1));
        assert(r.drop_first() =~= reports.drop_first());
        lemma_recorded_count(reports[0].lines, key, 1, k2);
    } else {
        assert(r[0] == reports[0]);
        assert(r.drop_first() =~= buffer_recorded(reports.drop_first(), m, key));
        lemma_buffer_recorded_count(reports.drop_first(), m, key, m2, k2);
    }
}

/// Between two drains every recorded sample is counted exactly once: after
/// recording a run of samples into an empty buffer, the buffer holds for
/// each stack and metadata the number of samples that had them.
pub proof fn drain_completeness(samples: Seq<Sample>, m: MetadataView, key: Seq<char>)
    ensures
        buffer_count(buffer_after(Seq::empty(), samples), m, key) == occurrences(samples, m, key),
    decreases samples.len(),
{
    if samples.len() == 0 {
        assert(buffer_count(Seq::<ReportView>::empty(), m, key) == 0);
    } else {
        drain_completeness(samples.drop_last(), m, key);
        lemma_buffer_recorded_count(
            buffer_after(Seq::empty(), samples.drop_last()),
            samples.last().0,
            samples.last().1,
            m,
            key,
        );
    }
}

proof fn lemma_drop_first_wf(reports: Seq<ReportView>)
    requires
        buffer_wf(reports),
        reports.len() > 0,
    ensures
        buffer_wf(reports.drop_first()),
{
    let rest = reports.drop_first();
    assert forall|i: int, j: int| 0 <= i < j < rest.len() implies !same_metadata(
        (#[trigger] rest[i]).metadata,
        (#[trigger] rest[j]).metadata,
    ) by {
        assert(rest[i] == reports[i + 1] && rest[j] == reports[j + 1]);
    }
    assert forall|i: int| 0 <= i < rest.len() implies lines_wf((#[trigger] rest[i]).lines) by {
        assert(rest[i] == reports[i + 1]);
    }
}

/// Without a report for its metadata, nothing is buffered for `m`.
pub proof fn lemma_buffer_count_absent(reports: Seq<ReportView>, m: MetadataView, key: Seq<char>)
    requires
        !has_metadata(reports, m),
    ensures
        buffer_count(reports, m, key) == 0,
    decreases reports.len(),
{
    if reports.len() > 0 {
        let rest = reports.drop_first();
        assert(!same_metadata(reports[0].metadata, m));
        assert(!has_metadata(rest, m)) by {
            assert forall|i: int| 0 <= i < rest.len() implies !same_metadata(
                (#[trigger] rest[i]).metadata,
                m,
            ) by {
                assert(rest[i] == reports[i + 1]);
            }
        }
        lemma_buffer_count_absent(rest, m, key);
    }
}

/// In a well-formed buffer the count for a metadata is the count in its one
/// report.
pub proof fn lemma_buffer_count_at(
    reports: Seq<ReportView>,
    i: int,
    m: MetadataView,
    key: Seq<char>,
)
    requires
        buffer_wf(reports),
        0 <= i < reports.len(),
        same_metadata(reports[i].metadata, m),
    ensures
        buffer_count(reports, m, key) == count_of(reports[i].lines, key),
    decreases reports.len(),
{
    let rest = reports.drop_first();
    lemma_drop_first_wf(reports);
    if i == 0 {
        assert(!has_metadata(rest, m)) by {
            assert forall|j: int| 0 <= j < rest.len() implies !same_metadata(
                (#[trigger] rest[j]).metadata,
                m,
            ) by {
                assert(rest[j] == reports[j + 1]);
                assert(!same_metadata(reports[0].metadata, reports[j + 1].metadata));
            }
        }
        lemma_buffer_count_absent(rest, m, key);
    } else {
        assert(!same_metadata(reports[0].metadata, reports[i].metadata));
        assert(rest[i - 1] == reports[i]);
        lemma_buffer_count_at(rest, i - 1, m, key);
    }
}

/// A sample for the metadata of the report at `i` goes into that report.
pub proof fn lemma_buffer_recorded_at(
    reports: Seq<ReportView>,
    m: MetadataView,
    key: Seq<char>,
    i: int,
)
    requires
        0 <= i < reports.len(),
        same_metadata(reports[i].metadata, m),
        forall|j: int| 0 <= j < i ==> !same_metadata((#[trigger] reports[j]).metadata, m),
    ensures
        buffer_recorded(reports, m, key) == reports.update(
            i,
            ReportView { metadata: reports[i].metadata, lines: recorded(reports[i].lines, key, 1) },
        ),
    decreases i,
{
    let rest = reports.drop_first();
    let changed = ReportView {
        metadata: reports[i].metadata,
        lines: recorded(reports[i].lines, key, 1),
    };
    if i == 0 {
        assert(buffer_recorded(reports, m, key) =~= reports.update(0, changed));
    } else {
        assert(!same_metadata(reports[0].metadata, m));
        assert(rest[i - 1] == reports[i]);
        assert forall|j: int| 0 <= j < i - 1 implies !same_metadata(
            (#[trigger] rest[j]).metadata,
            m,
        ) by {
            assert(rest[j] == reports[j + 1]);
        }
        lemma_buffer_recorded_at(rest, m, key, i - 1);
        assert(seq![reports[0]] + rest.update(i - 1, changed) =~= reports.update(i, changed));
    }
}

/// A sample for a metadata without a report opens a new report.
pub proof fn lemma_buffer_recorded_new(reports: Seq<ReportView>, m: MetadataView, key: Seq<char>)
    requires
        !has_metadata(reports, m),
    ensures
        buffer_recorded(reports, m, key) == reports.push(
            ReportView { metadata: m, lines: seq![(key, 1nat)] },
        ),
    decreases reports.len(),
{
    let fresh = ReportView { metadata: m, lines: seq![(key, 1nat)] };
    if reports.len() == 0 {
        assert(buffer_recorded(reports, m, key) =~= reports.push(fresh));
    } else {
        let rest = reports.drop_first();
        assert(!same_metadata(reports[0].metadata, m));
        assert(!has_metadata(rest, m)) by {
            assert forall|i: int| 0 <= i < rest.len() implies !same_metadata(
                (#[trigger] rest[i]).metadata,
                m,
            ) by {
                assert(rest[i] == reports[i + 1]);
            }
        }
        lemma_buffer_recorded_new(rest, m, key);
        assert(seq![reports[0]] + rest.push(fresh) =~= reports.push(fresh));
    }
}

/// The reports a backend accumulates between two drains.
#[derive(Debug)]
pub struct ReportBuffer {
    reports: Vec<Report>,
}

/// The views of a sequence of reports, in the same order.
pub open spec fn report_views(reports: Seq<Report>) -> Seq<ReportView> {
    Seq::new(reports.len(), |i: int| reports[i]@)
}

impl View for ReportBuffer {
    type V = Seq<ReportView>;

    closed spec fn view(&self) -> Seq<ReportView> {
        report_views(self.reports@)
    }
}

impl ReportBuffer {
    /// The invariant of a buffer.
    pub open spec fn wf(&self) -> bool {
        buffer_wf(self@)
    }

    /// An empty buffer.
    pub fn new() -> (b: ReportBuffer)
        ensures
            b@ == Seq::<ReportView>::empty(),
            b.wf(),
    {
        let b = ReportBuffer { reports: Vec::new() };
        assert(b@ =~= Seq::<ReportView>::empty());
        b
    }

    /// Whether nothing has been recorded since the last drain.
    pub fn is_empty(&self) -> (b: bool)
        ensures
            b == (self@.len() == 0),
    {
        self.reports.len() == 0
    }

    /// Records one sample: the counter of its folded stack, in the report of
    /// its metadata, goes up by one. Fails with `CountOverflow`, changing
    /// nothing, where that counter is at `u64::MAX`.
    pub fn record(&mut self, trace: &StackTrace) -> (r: Result<(), PyroscopeError>)
        requires
            old(self).wf(),
        ensures
            final(self).wf(),
            buffer_count(old(self)@, trace.metadata@, folded(trace.frames@, trace.order))
                < u64::MAX ==> r is Ok && final(self)@ == buffer_recorded(
                old(self)@,
                trace.metadata@,
                folded(trace.frames@, trace.order),
            ),
            buffer_count(old(self)@, trace.metadata@, folded(trace.frames@, trace.order))
                >= u64::MAX ==> r == Err::<(), PyroscopeError>(
                PyroscopeError::Serialization { cause: SerializationReason::CountOverflow },
            ) && final(self)@ == old(self)@,
    {
        let ghost before = self@;
        let ghost m = trace.metadata@;
        let ghost key = folded(trace.frames@, trace.order);
        let mut i: usize = 0;
        while i < self.reports.len()
            invariant
                i <= self.reports.len(),
                self@ == before,
                self.reports@ == old(self).reports@,
                buffer_wf(before),
                m == trace.metadata@,
                key == folded(trace.frames@, trace.order),
                forall|j: int| 0 <= j < i ==> !same_metadata((#[trigger] before[j]).metadata, m),
            decreases self.reports.len() - i,
        {
            if trace.metadata.same(self.reports[i].metadata()) {
                proof {
                    assert(same_metadata(before[i as int].metadata, m));
                    lemma_buffer_count_at(before, i as int, m, key);
                    lemma_buffer_recorded_at(before, m, key, i as int);
                }
                let mut report = self.reports.remove(i);
                let outcome = report.record_with_count(trace.fold(), 1);
                let ghost changed = report@;
                self.reports.insert(i, report);
                proof {
                    assert(self@ =~= before.update(i as int, changed));
                    if outcome is Ok {
                        lemma_recorded_wf(before[i as int].lines, key, 1);
                        assert(buffer_wf(self@)) by {
                            let now = self@;
                            assert forall|a: int, b: int| 0 <= a < b < now.len() implies
                                !same_metadata(
                                (#[trigger] now[a]).metadata,
                                (#[trigger] now[b]).metadata,
                            ) by {
                                assert(now[a].metadata == before[a].metadata);
                                assert(now[b].metadata == before[b].metadata);
                            }
                            assert forall|a: int| 0 <= a < now.len() implies lines_wf(
                                (#[trigger] now[a]).lines,
                            ) by {
                                if a != i {
                                    assert(now[a] == before[a]);
                                }
                            }
                        }
                    } else {
                        assert(self@ =~= before);
                    }
                }
                return outcome;
            }
            i = i + 1;
        }
        proof {
            assert(!has_metadata(before, m));
            lemma_buffer_count_absent(before, m, key);
            lemma_buffer_recorded_new(before, m, key);
        }
        let mut report = Report::new(trace.metadata.duplicate());
        proof {
            assert(count_of(Seq::<Line>::empty(), key) == 0);
            assert(recorded(Seq::<Line>::empty(), key, 1) =~= seq![(key, 1nat)]);
        }
        let outcome = report.record_with_count(trace.fold(), 1);
        let ghost fresh = report@;
        self.reports.push(report);
        proof {
            assert(fresh == ReportView { metadata: m, lines: seq![(key, 1nat)] });
            assert(self@ =~= before.push(fresh));
            assert(buffer_wf(self@)) by {
                let now = self@;
                assert forall|a: int, b: int| 0 <= a < b < now.len() implies !same_metadata(
                    (#[trigger] now[a]).metadata,
                    (#[trigger] now[b]).metadata,
                ) by {
                    assert(now[a] == before[a]);
                    if b < before.len() {
                        assert(now[b] == before[b]);
                    }
                }
                assert forall|a: int| 0 <= a < now.len() implies lines_wf(
                    (#[trigger] now[a]).lines,
                ) by {
                    if a < before.len() {
                        assert(now[a] == before[a]);
                    }
                }
            }
        }
        outcome
    }

    /// Takes everything that has been recorded since the last drain and
    /// leaves the buffer empty: the reports come back as they were, one per
    /// metadata, and nothing of them stays behind.
    pub fn drain(&mut self) -> (out: Vec<Report>)
        ensures
            report_views(out@) == old(self)@,
            final(self)@ == Seq::<ReportView>::empty(),
            final(self).wf(),
    {
        let mut out: Vec<Report> = Vec::new();
        std::mem::swap(&mut self.reports, &mut out);
        assert(self@ =~= Seq::<ReportView>::empty());
        out
    }
}

} // verus!
