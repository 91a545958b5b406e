//! Reports: folded stacks with their sample counts, for one metadata.

use crate::error::{ConfigField, ConfigReason, PyroscopeError, SerializationReason};
use crate::stack::{folded, same_metadata, MetadataView, ReportMetadata, StackTrace};
use crate::text::{decimal_bytes, push_decimal, str_eq};
use vstd::prelude::*;
use vstd::slice::slice_to_vec;
use vstd::string::*;
use vstd::utf8::encode_utf8;

verus! {

/// One line of a report as contracts see it: a folded stack and its count.
pub type Line = (Seq<char>, nat);

/// How a report is encoded for the wire.
#[derive(Clone, Copy, Debug, PartialEq, Eq, Structural)]
pub enum ReportEncoding {
    /// One text line per folded stack.
    Folded,
    /// The profile format of the remote server.
    Pprof,
}

/// The number of samples recorded for `key`.
pub open spec fn count_of(lines: Seq<Line>, key: Seq<char>) -> nat
    decreases lines.len(),
{
    if lines.len() == 0 {
        0
    } else {
        (if lines[0].0 == key {
            lines[0].1
        } else {
            0
        }) + count_of(lines.drop_first(), key)
    }
}

/// Whether some line is about `key`.
pub open spec fn has_key(lines: Seq<Line>, key: Seq<char>) -> bool {
    exists|i: int| 0 <= i < lines.len() && (#[trigger] lines[i]).0 == key
}

/// The lines after `n` more samples of `key`: its line is raised by `n`
/// where it has one, else a new line is added behind the others.
pub open spec fn recorded(lines: Seq<Line>, key: Seq<char>, n: nat) -> Seq<Line>
    decreases lines.len(),
{
    if lines.len() == 0 {
        seq![(key, n)]
    } else if lines[0].0 == key {
        seq![(key, (lines[0].1 + n) as nat)] + lines.drop_first()
    } else {
        seq![lines[0]] + recorded(lines.drop_first(), key, n)
    }
}

/// The lines of `a` after every line of `b` has been recorded into them.
pub open spec fn merged(a: Seq<Line>, b: Seq<Line>) -> Seq<Line>
    decreases b.len(),
{
    if b.len() == 0 {
        a
    } else {
        merged(recorded(a, b[0].0, b[0].1), b.drop_first())
    }
}

/// The invariant of a report: no stack has two lines and no count is zero.
pub open spec fn lines_wf(lines: Seq<Line>) -> bool {
    &&& forall|i: int, j: int|
        0 <= i < j < lines.len() ==> (#[trigger] lines[i]).0 != (#[trigger] lines[j]).0
    &&& forall|i: int| 0 <= i < lines.len() ==> (#[trigger] lines[i]).1 > 0
}

/// The bytes a report goes on the wire as: the folded text, or the bytes
/// that the encoder of the profile format made of it.
pub open spec fn wire_body(encoding: ReportEncoding, lines: Seq<Line>, profile: Seq<u8>) -> Seq<u8> {
    match encoding {
        ReportEncoding::Folded => folded_body(lines),
        ReportEncoding::Pprof => profile,
    }
}

/// One line of the folded body: the stack, a space, the count, a newline.
pub open spec fn line_bytes(line: Line) -> Seq<u8> {
    encode_utf8(line.0) + seq![32u8] + decimal_bytes(line.1) + seq![10u8]
}

/// The folded body: the lines in order, each ended by a newline.
pub open spec fn folded_body(lines: Seq<Line>) -> Seq<u8>
    decreases lines.len(),
{
    if lines.len() == 0 {
        Seq::empty()
    } else {
        folded_body(lines.drop_last()) + line_bytes(lines.last())
    }
}

/// Recording adds to the count of its key and to no other.
pub proof fn lemma_recorded_count(lines: Seq<Line>, key: Seq<char>, n: nat, k: Seq<char>)
    ensures
        count_of(recorded(lines, key, n), k) == count_of(lines, k) + if k == key {
            n
        } else {
            0
        },
    decreases lines.len(),
{
    let r = recorded(lines, key, n);
    if lines.len() == 0 {
        assert(r[0] == (key, n));
        assert(r.drop_first() =~= Seq::<Line>::empty());
        assert(count_of(Seq::<Line>::empty(), k) == 0);
    } else if lines[0].0 == key {
        assert(r[0] == (key, (lines[0].1 + n) as nat));
        assert(r.drop_first() =~= lines.drop_first());
    } else {
        assert(r[0] == lines[0]);
        assert(r.drop_first() =~= recorded(lines.drop_first(), key, n));
        lemma_recorded_count(lines.drop_first(), key, n, k);
    }
}

/// A stack without a line has no samples; in a well-formed report a stack
/// with a line has the count of that line.
pub proof fn lemma_count_at(lines: Seq<Line>, i: int)
    requires
        lines_wf(lines),
        0 <= i < lines.len(),
    ensures
        count_of(lines, lines[i].0) == lines[i].1,
    decreases lines.len(),
{
    let rest = lines.drop_first();
    assert(lines_wf(rest)) by {
        assert forall|a: int, b: int| 0 <= a < b < rest.len() implies (#[trigger] rest[a]).0 != (
        #[trigger] rest[b]).0 by {
            assert(rest[a] == lines[a + 1] && rest[b] == lines[b + 1]);
        }
        assert forall|a: int| 0 <= a < rest.len() implies (#[trigger] rest[a]).1 > 0 by {
            assert(rest[a] == lines[a + 1]);
        }
    }
    if i == 0 {
        assert forall|a: int| 0 <= a < rest.len() implies (#[trigger] rest[a]).0
            != lines[0].0 by {
            assert(rest[a] == lines[a + 1]);
        }
        lemma_count_absent(rest, lines[0].0);
    } else {
        assert(rest[i - 1] == lines[i]);
        lemma_count_at(rest, i - 1);
    }
}

/// A stack without a line has no samples.
pub proof fn lemma_count_absent(lines: Seq<Line>, key: Seq<char>)
    requires
        !has_key(lines, key),
    ensures
        count_of(lines, key) == 0,
    decreases lines.len(),
{
    if lines.len() > 0 {
        let rest = lines.drop_first();
        assert(lines[0].0 != key);
        assert(!has_key(rest, key)) by {
            assert forall|a: int| 0 <= a < rest.len() implies (#[trigger] rest[a]).0 != key by {
                assert(rest[a] == lines[a + 1]);
            }
        }
        lemma_count_absent(rest, key);
    }
}

/// Recording a stack whose first line is at `i` raises that line.
pub proof fn lemma_recorded_at(lines: Seq<Line>, key: Seq<char>, n: nat, i: int)
    requires
        0 <= i < lines.len(),
        lines[i].0 == key,
        forall|j: int| 0 <= j < i ==> (#[trigger] lines[j]).0 != key,
    ensures
        recorded(lines, key, n) == lines.update(i, (key, (lines[i].1 + n) as nat)),
    decreases i,
{
    let rest = lines.drop_first();
    if i == 0 {
        assert(recorded(lines, key, n) =~= lines.update(0, (key, (lines[0].1 + n) as nat)));
    } else {
        assert(lines[0].0 != key);
        assert(rest[i - 1] == lines[i]);
        assert forall|j: int| 0 <= j < i - 1 implies (#[trigger] rest[j]).0 != key by {
            assert(rest[j] == lines[j + 1]);
        }
        lemma_recorded_at(rest, key, n, i - 1);
        assert(seq![lines[0]] + rest.update(i - 1, (key, (lines[i].1 + n) as nat)) =~= lines.update(
            i,
            (key, (lines[i].1 + n) as nat),
        ));
    }
}

/// Recording a stack that has no line adds one behind the others.
pub proof fn lemma_recorded_new(lines: Seq<Line>, key: Seq<char>, n: nat)
    requires
        !has_key(lines, key),
    ensures
        recorded(lines, key, n) == lines.push((key, n)),
    decreases lines.len(),
{
    if lines.len() == 0 {
        assert(recorded(lines, key, n) =~= lines.push((key, n)));
    } else {
        let rest = lines.drop_first();
        assert(lines[0].0 != key);
        assert(!has_key(rest, key)) by {
            assert forall|a: int| 0 <= a < rest.len() implies (#[trigger] rest[a]).0 != key by {
                assert(rest[a] == lines[a + 1]);
            }
        }
        lemma_recorded_new(rest, key, n);
        assert(seq![lines[0]] + rest.push((key, n)) =~= lines.push((key, n)));
    }
}

/// Recording at least one sample keeps a report well formed.
pub proof fn lemma_recorded_wf(lines: Seq<Line>, key: Seq<char>, n: nat)
    requires
        lines_wf(lines),
        n > 0,
    ensures
        lines_wf(recorded(lines, key, n)),
{
    if has_key(lines, key) {
        let i = choose|i: int| 0 <= i < lines.len() && (#[trigger] lines[i]).0 == key;
        assert forall|j: int| 0 <= j < i implies (#[trigger] lines[j]).0 != key by {}
        lemma_recorded_at(lines, key, n, i);
    } else {
        lemma_recorded_new(lines, key, n);
    }
}

/// Merging adds up, stack by stack, the counts of both reports.
pub proof fn lemma_merged_count(a: Seq<Line>, b: Seq<Line>, k: Seq<char>)
    ensures
        count_of(merged(a, b), k) == count_of(a, k) + count_of(b, k),
    decreases b.len(),
{
    if b.len() > 0 {
        lemma_recorded_count(a, b[0].0, b[0].1, k);
        lemma_merged_count(recorded(a, b[0].0, b[0].1), b.drop_first(), k);
    }
}

/// Merging one more line is merging, then recording that line.
pub proof fn lemma_merged_push(a: Seq<Line>, b: Seq<Line>, x: Line)
    ensures
        merged(a, b.push(x)) == recorded(merged(a, b), x.0, x.1),
    decreases b.len(),
{
    let bx = b.push(x);
    if b.len() == 0 {
        assert(bx.drop_first() =~= Seq::<Line>::empty());
        assert(merged(recorded(a, x.0, x.1), Seq::<Line>::empty()) == recorded(a, x.0, x.1));
    } else {
        assert(bx[0] == b[0]);
        assert(bx.drop_first() =~= b.drop_first().push(x));
        lemma_merged_push(recorded(a, b[0].0, b[0].1), b.drop_first(), x);
    }
}

/// Whether every counter of `a` can take what `b` adds to it.
pub open spec fn merge_fits(a: Seq<Line>, b: Seq<Line>) -> bool {
    forall|j: int| 0 <= j < b.len() ==> count_of(a, (#[trigger] b[j]).0) + b[j].1 <= u64::MAX
}

/// A folded stack with the number of samples that showed it.
#[derive(Debug)]
pub struct Entry {
    pub stack: String,
    pub count: u64,
}

/// The lines that a list of entries stands for.
pub open spec fn lines_of(entries: Seq<Entry>) -> Seq<Line> {
    Seq::new(entries.len(), |i: int| (entries[i].stack@, entries[i].count as nat))
}

/// Records `count` samples of `stack` into `entries`. Fails, changing
/// nothing, where the counter of that stack would pass `u64::MAX`.
fn record_into(entries: &mut Vec<Entry>, stack: String, count: u64) -> (r: Result<
    (),
    PyroscopeError,
>)
    requires
        lines_wf(lines_of(old(entries)@)),
        count > 0,
    ensures
        count_of(lines_of(old(entries)@), stack@) + count <= u64::MAX ==> r is Ok && lines_of(
            final(entries)@,
        ) == recorded(lines_of(old(entries)@), stack@, count as nat),
        count_of(lines_of(old(entries)@), stack@) + count > u64::MAX ==> r == Err::<
            (),
            PyroscopeError,
        >(PyroscopeError::Serialization { cause: SerializationReason::CountOverflow })
            && final(entries)@ == old(entries)@,
        lines_wf(lines_of(final(entries)@)),
{
    let ghost lines = lines_of(entries@);
    let mut i: usize = 0;
    while i < entries.len()
        invariant
            i <= entries.len(),
            entries@ == old(entries)@,
            lines == lines_of(entries@),
            lines_wf(lines),
            count > 0,
            forall|j: int| 0 <= j < i ==> (#[trigger] lines[j]).0 != stack@,
        decreases entries.len() - i,
    {
        if entries[i].stack == stack {
            proof {
                assert(lines[i as int].0 == stack@);
                lemma_count_at(lines, i as int);
                lemma_recorded_at(lines, stack@, count as nat, i as int);
                lemma_recorded_wf(lines, stack@, count as nat);
            }
            return match entries[i].count.checked_add(count) {
                None => Err(
                    PyroscopeError::Serialization { cause: SerializationReason::CountOverflow },
                ),
                Some(total) => {
                    entries.set(i, Entry { stack, count: total });
                    assert(lines_of(entries@) =~= lines.update(
                        i as int,
                        (stack@, (lines[i as int].1 + count) as nat),
                    ));
                    Ok(())
                },
            };
        }
        i = i + 1;
    }
    proof {
        assert(!has_key(lines, stack@));
        lemma_count_absent(lines, stack@);
        lemma_recorded_new(lines, stack@, count as nat);
        lemma_recorded_wf(lines, stack@, count as nat);
    }
    entries.push(Entry { stack, count });
    assert(lines_of(entries@) =~= lines.push((stack@, count as nat)));
    Ok(())
}

/// A copy of a list of entries.
fn duplicate_entries(entries: &Vec<Entry>) -> (out: Vec<Entry>)
    ensures
        out@ == entries@,
{
    let mut out: Vec<Entry> = Vec::new();
    let mut i: usize = 0;
    while i < entries.len()
        invariant
            i <= entries.len(),
            out@ == entries@.take(i as int),
        decreases entries.len() - i,
    {
        out.push(Entry { stack: entries[i].stack.clone(), count: entries[i].count });
        assert(entries@.take(i + 1) =~= entries@.take(i as int).push(entries@[i as int]));
        i = i + 1;
    }
    assert(entries@.take(entries.len() as int) =~= entries@);
    out
}

/// Folded stacks with their sample counts, all under one metadata.
#[derive(Debug)]
pub struct Report {
    metadata: ReportMetadata,
    entries: Vec<Entry>,
}

/// A report as contracts see it.
pub struct ReportView {
    pub metadata: MetadataView,
    pub lines: Seq<Line>,
}

impl View for Report {
    type V = ReportView;

    closed spec fn view(&self) -> ReportView {
        ReportView { metadata: self.metadata@, lines: lines_of(self.entries@) }
    }
}

impl Report {
    /// The invariant of a report: one line per stack, no count of zero.
    pub open spec fn wf(&self) -> bool {
        lines_wf(self@.lines)
    }

    /// An empty report for samples of the given metadata.
    pub fn new(metadata: ReportMetadata) -> (r: Report)
        ensures
            r@.metadata == metadata@,
            r@.lines == Seq::<Line>::empty(),
            r.wf(),
    {
        let r = Report { metadata, entries: Vec::new() };
        assert(r@.lines =~= Seq::<Line>::empty());
        r
    }

    /// The metadata that every sample of this report has.
    pub fn metadata(&self) -> (m: &ReportMetadata)
        ensures
            m@ == self@.metadata,
    {
        &self.metadata
    }

    /// The number of distinct stacks.
    pub fn len(&self) -> (n: usize)
        ensures
            n == self@.lines.len(),
    {
        self.entries.len()
    }

    /// Whether no sample has been recorded.
    pub fn is_empty(&self) -> (b: bool)
        ensures
            b == (self@.lines.len() == 0),
    {
        self.entries.len() == 0
    }

    /// The number of samples recorded for `stack`.
    pub fn count(&self, stack: &str) -> (n: u64)
        requires
            self.wf(),
        ensures
            n == count_of(self@.lines, stack@),
    {
        let ghost lines = self@.lines;
        let mut i: usize = 0;
        while i < self.entries.len()
            invariant
                i <= self.entries.len(),
                lines == lines_of(self.entries@),
                lines_wf(lines),
                forall|j: int| 0 <= j < i ==> (#[trigger] lines[j]).0 != stack@,
            decreases self.entries.len() - i,
        {
            if str_eq(self.entries[i].stack.as_str(), stack) {
                proof {
                    assert(lines[i as int].0 == stack@);
                    lemma_count_at(lines, i as int);
                }
                return self.entries[i].count;
            }
            i = i + 1;
        }
        proof {
            assert(!has_key(lines, stack@));
            lemma_count_absent(lines, stack@);
        }
        0
    }

    /// Records `count` samples of the folded stack `stack`. A count of zero
    /// changes nothing. Fails with `CountOverflow`, changing nothing, where
    /// the counter of that stack would pass `u64::MAX`.
    pub fn record_with_count(&mut self, stack: String, count: u64) -> (r: Result<
        (),
        PyroscopeError,
    >)
        requires
            old(self).wf(),
        ensures
            final(self).wf(),
            final(self)@.metadata == old(self)@.metadata,
            count == 0 ==> r is Ok && final(self)@ == old(self)@,
            count > 0 && count_of(old(self)@.lines, stack@) + count <= u64::MAX ==> r is Ok
                && final(self)@.lines == recorded(old(self)@.lines, stack@, count as nat),
            count > 0 && count_of(old(self)@.lines, stack@) + count > u64::MAX ==> r == Err::<
                (),
                PyroscopeError,
            >(PyroscopeError::Serialization { cause: SerializationReason::CountOverflow })
                && final(self)@ == old(self)@,
    {
        if count == 0 {
            Ok(())
        } else {
            record_into(&mut self.entries, stack, count)
        }
    }

    /// Records one sample of `trace`: the counter of its folded stack goes up
    /// by one, starting at one. Fails with `Mismatch`, changing nothing,
    /// where the trace has another metadata than the report, and with
    /// `CountOverflow` where the counter is at `u64::MAX`.
    pub fn record(&mut self, trace: &StackTrace) -> (r: Result<(), PyroscopeError>)
        requires
            old(self).wf(),
        ensures
            final(self).wf(),
            final(self)@.metadata == old(self)@.metadata,
            !same_metadata(trace.metadata@, old(self)@.metadata) ==> r == Err::<
                (),
                PyroscopeError,
            >(
                PyroscopeError::InvalidConfig {
                    field: ConfigField::Metadata,
                    reason: ConfigReason::Mismatch,
                },
            ) && final(self)@ == old(self)@,
            same_metadata(trace.metadata@, old(self)@.metadata) && count_of(
                old(self)@.lines,
                folded(trace.frames@, trace.order),
            ) < u64::MAX ==> r is Ok && final(self)@.lines == recorded(
                old(self)@.lines,
                folded(trace.frames@, trace.order),
                1,
            ),
            same_metadata(trace.metadata@, old(self)@.metadata) && count_of(
                old(self)@.lines,
                folded(trace.frames@, trace.order),
            ) >= u64::MAX ==> r == Err::<(), PyroscopeError>(
                PyroscopeError::Serialization { cause: SerializationReason::CountOverflow },
            ) && final(self)@ == old(self)@,
    {
        if !trace.metadata.same(&self.metadata) {
            return Err(
                PyroscopeError::InvalidConfig {
                    field: ConfigField::Metadata,
                    reason: ConfigReason::Mismatch,
                },
            );
        }
        record_into(&mut self.entries, trace.fold(), 1)
    }

    /// Adds the counts of `other` to this report, stack by stack; stacks
    /// that are new here come behind the others, in the order `other` has
    /// them. Fails, changing nothing, with `Mismatch` where the two reports
    /// have different metadata and with `CountOverflow` where a sum would
    /// pass `u64::MAX`.
    pub fn merge(&mut self, other: &Report) -> (r: Result<(), PyroscopeError>)
        requires
            old(self).wf(),
            other.wf(),
        ensures
            final(self).wf(),
            final(self)@.metadata == old(self)@.metadata,
            !same_metadata(other@.metadata, old(self)@.metadata) ==> r == Err::<
                (),
                PyroscopeError,
            >(
                PyroscopeError::InvalidConfig {
                    field: ConfigField::Metadata,
                    reason: ConfigReason::Mismatch,
                },
            ) && final(self)@ == old(self)@,
            same_metadata(other@.metadata, old(self)@.metadata) && merge_fits(
                old(self)@.lines,
                other@.lines,
            ) ==> r is Ok && final(self)@.lines == merged(old(self)@.lines, other@.lines),
            same_metadata(other@.metadata, old(self)@.metadata) && !merge_fits(
                old(self)@.lines,
                other@.lines,
            ) ==> r == Err::<(), PyroscopeError>(
                PyroscopeError::Serialization { cause: SerializationReason::CountOverflow },
            ) && final(self)@ == old(self)@,
    {
        if !other.metadata.same(&self.metadata) {
            return Err(
                PyroscopeError::InvalidConfig {
                    field: ConfigField::Metadata,
                    reason: ConfigReason::Mismatch,
                },
            );
        }
        let ghost a = self@.lines;
        let ghost b = other@.lines;
        let mut scratch = duplicate_entries(&self.entries);
        let mut j: usize = 0;
        proof {
            assert(b.take(0) =~= Seq::<Line>::empty());
        }
        while j < other.entries.len()
            invariant
                j <= other.entries.len(),
                self@ == old(self)@,
                same_metadata(other@.metadata, self@.metadata),
                a == lines_of(self.entries@),
                b == lines_of(other.entries@),
                lines_wf(a),
                lines_wf(b),
                lines_of(scratch@) == merged(a, b.take(j as int)),
                lines_wf(lines_of(scratch@)),
                merge_fits(a, b.take(j as int)),
            decreases other.entries.len() - j,
        {
            let ghost so_far = b.take(j as int);
            let ghost key = b[j as int].0;
            proof {
                assert(b.take(j + 1) =~= so_far.push(b[j as int]));
                lemma_merged_push(a, so_far, b[j as int]);
                lemma_merged_count(a, so_far, key);
                assert(!has_key(so_far, key)) by {
                    assert forall|i: int| 0 <= i < so_far.len() implies (#[trigger] so_far[i]).0
                        != key by {
                        assert(so_far[i] == b[i]);
                    }
                }
                lemma_count_absent(so_far, key);
            }
            let stack = other.entries[j].stack.clone();
            match record_into(&mut scratch, stack, other.entries[j].count) {
                Err(e) => {
                    assert(!merge_fits(a, b)) by {
                        assert(count_of(a, b[j as int].0) + b[j as int].1 > u64::MAX);
                    }
                    return Err(e);
                },
                Ok(()) => {
                    assert(merge_fits(a, b.take(j + 1))) by {
                        assert forall|i: int| 0 <= i < b.take(j + 1).len() implies count_of(
                            a,
                            (#[trigger] b.take(j + 1)[i]).0,
                        ) + b.take(j + 1)[i].1 <= u64::MAX by {
                            if i < j {
                                assert(b.take(j + 1)[i] == so_far[i]);
                            }
                        }
                    }
                },
            }
            j = j + 1;
        }
        proof {
            assert(b.take(other.entries.len() as int) =~= b);
        }
        self.entries = scratch;
        Ok(())
    }

    /// A copy of this report.
    pub fn duplicate(&self) -> (r: Report)
        ensures
            r@ == self@,
    {
        Report { metadata: self.metadata.duplicate(), entries: duplicate_entries(&self.entries) }
    }

    /// Empties the report in place; the metadata stays.
    pub fn clear(&mut self)
        ensures
            final(self)@.lines == Seq::<Line>::empty(),
            final(self)@.metadata == old(self)@.metadata,
            final(self).wf(),
    {
        self.entries.clear();
        assert(self@.lines =~= Seq::<Line>::empty());
    }

    /// The text body of the report: one line per stack, in the order the
    /// stacks were first recorded.
    pub fn to_folded(&self) -> (body: Vec<u8>)
        ensures
            body@ == folded_body(self@.lines),
    {
        let ghost lines = self@.lines;
        let mut body: Vec<u8> = Vec::new();
        let mut i: usize = 0;
        proof {
            assert(lines.take(0).len() == 0);
        }
        while i < self.entries.len()
            invariant
                i <= self.entries.len(),
                lines == lines_of(self.entries@),
                body@ == folded_body(lines.take(i as int)),
            decreases self.entries.len() - i,
        {
            let ghost before = body@;
            body.extend_from_slice(self.entries[i].stack.as_str().as_bytes());
            body.push(32);
            push_decimal(&mut body, self.entries[i].count);
            body.push(10);
            proof {
                let next = lines.take(i + 1);
                assert(next.drop_last() =~= lines.take(i as int));
                assert(next.last() == lines[i as int]);
                assert(body@ =~= before + line_bytes(lines[i as int]));
            }
            i = i + 1;
        }
        proof {
            assert(lines.take(self.entries.len() as int) =~= lines);
        }
        body
    }

    /// Encodes the report for the wire. The folded text is made here. The
    /// profile format is the work of an encoder outside this library:
    /// `profile` is what it made of this report, and is handed on as it is
    /// where that format is asked for.
    pub fn serialize(&self, encoding: ReportEncoding, profile: &[u8]) -> (body: Vec<u8>)
        ensures
            body@ == wire_body(encoding, self@.lines, profile@),
    {
        match encoding {
            ReportEncoding::Folded => self.to_folded(),
            ReportEncoding::Pprof => slice_to_vec(profile),
        }
    }

    /// No count of a report passes `u64::MAX`.
    pub proof fn lemma_counts_fit(&self)
        ensures
            forall|i: int| 0 <= i < self@.lines.len() ==> (#[trigger] self@.lines[i]).1 <= u64::MAX,
    {
    }
}

} // verus!
