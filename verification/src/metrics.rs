//! The metrics recorder: counts of successes and failures, one duration per key, and the
//! total of the bytes that successful operations handled.

use crate::clock::{
    duration_nanos, duration_of, duration_text, format_duration, nanos_per_sec, now, subsec_nanos,
    whole_secs,
};
use crate::text::{decimal, decimal_text};
use std::time::{Duration, Instant};
use vstd::arithmetic::div_mod::{
    lemma_div_is_ordered, lemma_div_multiples_vanish, lemma_fundamental_div_mod,
    lemma_hoist_over_denominator,
};
use vstd::prelude::*;
use vstd::string::*;

verus! {

/// The timing table as a list: at most one pair for each key, a key with its duration in
/// nanoseconds.
pub type Timings = Seq<(Seq<char>, nat)>;

/// Whether `key` has an entry in `timings`.
pub open spec fn has_key(timings: Timings, key: Seq<char>) -> bool {
    exists|i: int| 0 <= i < timings.len() && (#[trigger] timings[i]).0 == key
}

/// The place of the entry of `key`, where it has one.
pub open spec fn key_index(timings: Timings, key: Seq<char>) -> int {
    choose|i: int| 0 <= i < timings.len() && (#[trigger] timings[i]).0 == key
}

/// No key has two entries.
pub open spec fn distinct_keys(timings: Timings) -> bool {
    forall|i: int, j: int|
        0 <= i < j < timings.len() ==> (#[trigger] timings[i]).0 != (#[trigger] timings[j]).0
}

/// `timings` after `nanos` is stored under `key`: the entry of `key` is overwritten where
/// there is one, and a new entry is added at the end where there is none.
pub open spec fn store(timings: Timings, key: Seq<char>, nanos: nat) -> Timings {
    if has_key(timings, key) {
        timings.update(key_index(timings, key), (key, nanos))
    } else {
        timings.push((key, nanos))
    }
}

/// The sum of all durations in `timings`, in nanoseconds.
pub open spec fn total_nanos(timings: Timings) -> nat
    decreases timings.len(),
{
    if timings.len() == 0 {
        0
    } else {
        total_nanos(timings.drop_last()) + timings.last().1
    }
}

/// `n + 1`, held at `usize::MAX`: a counter that is full stays full.
pub open spec fn bump(n: nat) -> nat {
    if n < usize::MAX {
        n + 1
    } else {
        n
    }
}

/// `a + b`, held at `u128::MAX`.
pub open spec fn capped_sum(a: nat, b: nat) -> nat {
    if a + b <= u128::MAX {
        a + b
    } else {
        u128::MAX as nat
    }
}

/// The average duration of the recorded operations in nanoseconds, rounded down: the sum
/// of the stored durations over the number of operations, and zero where none was
/// recorded. The divisor counts operations, not keys.
pub open spec fn average_nanos(v: MetricsView) -> nat {
    if v.successful + v.failed == 0 {
        0
    } else {
        total_nanos(v.timings) / (v.successful + v.failed)
    }
}

/// The report on a recorder, with `average` as the text of the average duration: the
/// number of operations, of successes and of failures, the average and the byte total,
/// each on a line of its own.
pub open spec fn report_text(v: MetricsView, average: Seq<char>) -> Seq<char> {
    "Performance Summary:\nTotal Requests: "@ + decimal_text(v.successful + v.failed)
        + "\nSuccessful: "@ + decimal_text(v.successful) + "\nFailed: "@ + decimal_text(v.failed)
        + "\nAverage Duration: "@ + average + "\nTotal Data: "@ + decimal_text(v.total_bytes)
        + " bytes"@
}

/// The report on a recorder: `report_text` with the average duration formatted to two
/// digits after the point.
pub open spec fn summary_text(v: MetricsView) -> Seq<char> {
    report_text(
        v,
        duration_text(
            (average_nanos(v) / nanos_per_sec()) as u64,
            (average_nanos(v) % nanos_per_sec()) as u32,
        ),
    )
}

/// What a recorder holds, as plain values.
pub struct MetricsView {
    /// The instant at which the start of a batch was last marked, if it ever was.
    pub start: Option<Instant>,
    /// The duration stored under each key.
    pub timings: Timings,
    /// The number of successes recorded.
    pub successful: nat,
    /// The number of failures recorded.
    pub failed: nat,
    /// The bytes handled by the successes recorded.
    pub total_bytes: nat,
}

/// What holds of every recorder: no key has two durations, there are no more durations
/// than recorded operations, the counts fit a `usize` and the byte total a `u128`.
pub open spec fn valid(v: MetricsView) -> bool {
    &&& distinct_keys(v.timings)
    &&& v.timings.len() <= v.successful + v.failed
    &&& v.successful <= usize::MAX
    &&& v.failed <= usize::MAX
    &&& v.total_bytes <= u128::MAX
}

/// A recorder that has recorded nothing and has no start marked.
pub open spec fn nothing_recorded() -> MetricsView {
    MetricsView { start: None, timings: Seq::empty(), successful: 0, failed: 0, total_bytes: 0 }
}

/// The recorder `v` with the start of a batch marked at `start`, and all else as it was.
pub open spec fn begun(v: MetricsView, start: Instant) -> MetricsView {
    MetricsView { start: Some(start), ..v }
}

/// What one completed operation reports: its key, its duration in nanoseconds and, for a
/// success, the number of bytes that it handled. A failure reports no bytes.
pub struct Sample {
    pub key: Seq<char>,
    pub nanos: nat,
    pub bytes: Option<nat>,
}

/// The recorder after one more operation is recorded.
pub open spec fn apply(v: MetricsView, sample: Sample) -> MetricsView {
    match sample.bytes {
        Some(bytes) => MetricsView {
            timings: store(v.timings, sample.key, sample.nanos),
            successful: bump(v.successful),
            total_bytes: capped_sum(v.total_bytes, bytes),
            ..v
        },
        None => MetricsView {
            timings: store(v.timings, sample.key, sample.nanos),
            failed: bump(v.failed),
            ..v
        },
    }
}

/// The recorder after the operations of `samples` are recorded one after the other.
pub open spec fn apply_all(v: MetricsView, samples: Seq<Sample>) -> MetricsView
    decreases samples.len(),
{
    if samples.len() == 0 {
        v
    } else {
        apply(apply_all(v, samples.drop_last()), samples.last())
    }
}

/// The number of successes among `samples`.
pub open spec fn successes(samples: Seq<Sample>) -> nat
    decreases samples.len(),
{
    if samples.len() == 0 {
        0
    } else {
        successes(samples.drop_last()) + if samples.last().bytes is Some {
            1nat
        } else {
            0nat
        }
    }
}

/// The bytes that the successes among `samples` handled, added up.
pub open spec fn success_bytes(samples: Seq<Sample>) -> nat
    decreases samples.len(),
{
    if samples.len() == 0 {
        0
    } else {
        success_bytes(samples.drop_last()) + match samples.last().bytes {
            Some(bytes) => bytes,
            None => 0,
        }
    }
}

/// After a batch, a recorder that had recorded nothing holds one count for each
/// operation of the batch: the successes and the failures add up to the number of
/// operations, and the successes are those of the batch.
pub proof fn lemma_counts_add_up(v: MetricsView, samples: Seq<Sample>)
    requires
        v.successful == 0,
        v.failed == 0,
        samples.len() <= usize::MAX,
    ensures
        apply_all(v, samples).successful == successes(samples),
        apply_all(v, samples).successful + apply_all(v, samples).failed == samples.len(),
    decreases samples.len(),
{
    if samples.len() > 0 {
        lemma_counts_add_up(v, samples.drop_last());
    }
}

/// No success among `samples` reports more bytes than a `usize` holds.
pub open spec fn bytes_fit(samples: Seq<Sample>) -> bool {
    forall|i: int|
        0 <= i < samples.len() ==> ((#[trigger] samples[i]).bytes matches Some(bytes) ==> bytes
            <= usize::MAX)
}

/// After a batch, the byte total of a recorder that had recorded nothing is the sum of
/// the bytes of the successful operations of the batch: the total is kept in a `u128`,
/// which holds the bytes of as many operations as a list can have.
pub proof fn lemma_bytes_add_up(v: MetricsView, samples: Seq<Sample>)
    requires
        v.total_bytes == 0,
        samples.len() <= usize::MAX,
        bytes_fit(samples),
    ensures
        apply_all(v, samples).total_bytes == success_bytes(samples),
    decreases samples.len(),
{
    lemma_bytes_bounded(samples);
    if samples.len() > 0 {
        let front = samples.drop_last();
        assert forall|i: int| 0 <= i < front.len() implies ((#[trigger] front[i]).bytes matches Some(
            bytes,
        ) ==> bytes <= usize::MAX) by {
            assert(front[i] == samples[i]);
        }
        lemma_bytes_add_up(v, front);
        lemma_bytes_bounded(front);
    }
}

/// The bytes of a batch are at most a `usize` for each of its operations, and so fit a
/// `u128`.
proof fn lemma_bytes_bounded(samples: Seq<Sample>)
    requires
        samples.len() <= usize::MAX,
        bytes_fit(samples),
    ensures
        success_bytes(samples) <= samples.len() * usize::MAX,
        success_bytes(samples) <= u128::MAX,
    decreases samples.len(),
{
    if samples.len() > 0 {
        let front = samples.drop_last();
        assert forall|i: int| 0 <= i < front.len() implies ((#[trigger] front[i]).bytes matches Some(
            bytes,
        ) ==> bytes <= usize::MAX) by {
            assert(front[i] == samples[i]);
        }
        lemma_bytes_bounded(front);
        assert(samples[samples.len() - 1] == samples.last());
        assert((samples.len() - 1) * usize::MAX + usize::MAX == samples.len() * usize::MAX)
            by (nonlinear_arith);
    }
    assert(samples.len() * usize::MAX <= u128::MAX) by (nonlinear_arith)
        requires
            samples.len() <= usize::MAX,
            usize::MAX <= 0xFFFF_FFFF_FFFF_FFFF,
    ;
}

/// Recording leaves the mark of the batch's start as it was.
pub proof fn lemma_start_kept(v: MetricsView, samples: Seq<Sample>)
    ensures
        apply_all(v, samples).start == v.start,
    decreases samples.len(),
{
    if samples.len() > 0 {
        lemma_start_kept(v, samples.drop_last());
    }
}

/// A recorder that has recorded no operation has the average duration zero: nothing is
/// divided by the number of operations where that number is zero.
pub proof fn lemma_no_operation_no_average(v: MetricsView)
    requires
        v.successful == 0,
        v.failed == 0,
    ensures
        average_nanos(v) == 0,
        summary_text(v) == report_text(v, duration_text(0, 0)),
{
}

/// The report is a function of what the recorder holds: two reports on a recorder on
/// which nothing was recorded in between are the same text.
pub proof fn lemma_summary_repeats(metrics: Metrics, first: Seq<char>, second: Seq<char>)
    requires
        first == summary_text(metrics@),
        second == summary_text(metrics@),
    ensures
        first == second,
{
}

/// One entry of the timing table.
#[derive(Debug)]
struct Timing {
    key: String,
    secs: u64,
    nanos: u32,
}

impl Timing {
    /// The entry as a key and a number of nanoseconds.
    spec fn pair(&self) -> (Seq<char>, nat) {
        (self.key@, self.secs as nat * 1_000_000_000 + self.nanos as nat)
    }
}

/// The entries of a table as pairs of a key and a number of nanoseconds.
spec fn pairs(table: Seq<Timing>) -> Timings {
    Seq::new(table.len(), |i: int| table[i].pair())
}

/// Every entry of the table has less than a second in its nanosecond part.
spec fn normal_entries(table: Seq<Timing>) -> bool {
    forall|i: int| 0 <= i < table.len() ==> (#[trigger] table[i]).nanos < 1_000_000_000
}

/// Stores a duration under `key`, in place of the one stored there before if there is one.
#[verifier::loop_isolation(false)]
fn store_entry(table: &mut Vec<Timing>, key: String, secs: u64, nanos: u32)
    requires
        distinct_keys(pairs(old(table)@)),
        normal_entries(old(table)@),
        nanos < 1_000_000_000,
    ensures
        pairs(final(table)@) == store(
            pairs(old(table)@),
            key@,
            secs as nat * 1_000_000_000 + nanos as nat,
        ),
        distinct_keys(pairs(final(table)@)),
        normal_entries(final(table)@),
        old(table)@.len() <= final(table)@.len() <= old(table)@.len() + 1,
{
    let ghost before = pairs(table@);
    let ghost total = secs as nat * 1_000_000_000 + nanos as nat;
    let mut i: usize = 0;
    while i < table.len()
        invariant
            i <= table@.len(),
            table@ == old(table)@,
            before == pairs(table@),
            forall|j: int| 0 <= j < i ==> (#[trigger] before[j]).0 != key@,
        decreases table@.len() - i,
    {
        if table[i].key == key {
            proof {
                assert(before[i as int].0 == key@);
                assert(has_key(before, key@));
                let k = key_index(before, key@);
                assert(k == i) by {
                    if k < i {
                        assert(before[k].0 != before[i as int].0);
                    } else if i < k {
                        assert(before[i as int].0 != before[k].0);
                    }
                }
            }
            table.set(i, Timing { key, secs, nanos });
            proof {
                assert(pairs(table@) =~= before.update(i as int, (key@, total)));
                let after = pairs(table@);
                assert forall|a: int, b: int| 0 <= a < b < after.len() implies (#[trigger] after[a]).0
                    != (#[trigger] after[b]).0 by {
                    assert(after[a].0 == before[a].0);
                    assert(after[b].0 == before[b].0);
                }
            }
            return ;
        }
        i += 1;
    }
    proof {
        assert(!has_key(before, key@));
    }
    table.push(Timing { key, secs, nanos });
    proof {
        assert(pairs(table@) =~= before.push((key@, total)));
        let after = pairs(table@);
        assert forall|a: int, b: int| 0 <= a < b < after.len() implies (#[trigger] after[a]).0
            != (#[trigger] after[b]).0 by {
            if b < before.len() {
                assert(after[a].0 == before[a].0);
                assert(after[b].0 == before[b].0);
            } else {
                assert(after[a].0 == before[a].0);
            }
        }
    }
}

/// The sum of the whole seconds of the entries.
spec fn secs_total(table: Seq<Timing>) -> nat
    decreases table.len(),
{
    if table.len() == 0 {
        0
    } else {
        secs_total(table.drop_last()) + table.last().secs as nat
    }
}

/// The sum of the nanosecond parts of the entries.
spec fn subsec_total(table: Seq<Timing>) -> nat
    decreases table.len(),
{
    if table.len() == 0 {
        0
    } else {
        subsec_total(table.drop_last()) + table.last().nanos as nat
    }
}

/// The sum of the durations is the sum of the seconds and the sum of the nanosecond
/// parts, and both sums are bounded by the number of entries.
proof fn lemma_totals(table: Seq<Timing>)
    requires
        normal_entries(table),
    ensures
        total_nanos(pairs(table)) == secs_total(table) * 1_000_000_000 + subsec_total(table),
        secs_total(table) <= table.len() * u64::MAX,
        subsec_total(table) <= table.len() * 999_999_999,
    decreases table.len(),
{
    if table.len() > 0 {
        lemma_totals(table.drop_last());
        assert(pairs(table).drop_last() =~= pairs(table.drop_last()));
        assert(pairs(table).last() == table.last().pair());
        assert(table.last().nanos < 1_000_000_000);
        assert((secs_total(table.drop_last()) + table.last().secs) * 1_000_000_000
            == secs_total(table.drop_last()) * 1_000_000_000 + table.last().secs
            * 1_000_000_000) by (nonlinear_arith);
        assert((table.len() - 1) * u64::MAX + u64::MAX == table.len() * u64::MAX)
            by (nonlinear_arith);
        assert((table.len() - 1) * 999_999_999 + 999_999_999 == table.len() * 999_999_999)
            by (nonlinear_arith);
    } else {
        assert(pairs(table) =~= Seq::empty());
    }
}

/// Accumulates what the operations of a batch report.
///
/// The counters stop at `usize::MAX` and the byte total at `u128::MAX` instead of
/// overflowing, so that recording never fails.
#[derive(Debug)]
pub struct Metrics {
    start_time: Option<Instant>,
    url_timings: Vec<Timing>,
    successful_requests: usize,
    failed_requests: usize,
    total_bytes: u128,
}

impl View for Metrics {
    type V = MetricsView;

    closed spec fn view(&self) -> MetricsView {
        MetricsView {
            start: self.start_time,
            timings: pairs(self.url_timings@),
            successful: self.successful_requests as nat,
            failed: self.failed_requests as nat,
            total_bytes: self.total_bytes as nat,
        }
    }
}

impl Default for Metrics {
    /// A recorder that has recorded nothing.
    fn default() -> (m: Metrics)
        ensures
            m.wf(),
            m@ == nothing_recorded(),
    {
        Metrics::new()
    }
}

impl Metrics {
    /// Every stored duration has less than a second in its nanosecond part.
    pub closed spec fn normal(&self) -> bool {
        normal_entries(self.url_timings@)
    }

    /// The recorder's invariant.
    pub open spec fn wf(&self) -> bool {
        self.normal() && valid(self@)
    }

    /// A recorder that has recorded nothing.
    pub fn new() -> (m: Metrics)
        ensures
            m.wf(),
            m@ == nothing_recorded(),
    {
        let m = Metrics {
            start_time: None,
            url_timings: Vec::new(),
            successful_requests: 0,
            failed_requests: 0,
            total_bytes: 0,
        };
        assert(m@.timings =~= Seq::empty());
        assert(distinct_keys(m@.timings));
        m
    }

    /// Marks the start of a batch with the current instant.
    pub fn start_operation(&mut self)
        requires
            old(self).wf(),
        ensures
            final(self).wf(),
            final(self)@.start matches Some(start) && final(self)@ == begun(old(self)@, start),
    {
        self.start_time = Some(now());
    }

    /// The instant at which the start of a batch was last marked, if it ever was.
    pub open spec fn start_instant(&self) -> Option<Instant> {
        self@.start
    }

    /// The instant at which the start of a batch was last marked, if it ever was.
    pub fn start_time(&self) -> (start: Option<Instant>)
        ensures
            start == self.start_instant(),
    {
        self.start_time
    }

    /// Records a success: counts it, adds `bytes` to the byte total and stores `duration`
    /// under `url`, in place of what was stored there before.
    pub fn record_success(&mut self, url: String, duration: Duration, bytes: usize)
        requires
            old(self).wf(),
        ensures
            final(self).wf(),
            final(self)@ == apply(
                old(self)@,
                Sample { key: url@, nanos: duration_nanos(duration), bytes: Some(bytes as nat) },
            ),
            final(self).start_instant() == old(self).start_instant(),
    {
        let secs = whole_secs(&duration);
        let nanos = subsec_nanos(&duration);
        if self.successful_requests < usize::MAX {
            self.successful_requests += 1;
        }
        if bytes as u128 <= u128::MAX - self.total_bytes {
            self.total_bytes += bytes as u128;
        } else {
            self.total_bytes = u128::MAX;
        }
        store_entry(&mut self.url_timings, url, secs, nanos);
        proof {
            assert(self.url_timings@.len() == self.url_timings.len());
        }
    }

    /// Records a failure: counts it and stores `duration` under `url`, in place of what
    /// was stored there before.
    pub fn record_failure(&mut self, url: String, duration: Duration)
        requires
            old(self).wf(),
        ensures
            final(self).wf(),
            final(self)@ == apply(
                old(self)@,
                Sample { key: url@, nanos: duration_nanos(duration), bytes: None },
            ),
            final(self).start_instant() == old(self).start_instant(),
    {
        let secs = whole_secs(&duration);
        let nanos = subsec_nanos(&duration);
        if self.failed_requests < usize::MAX {
            self.failed_requests += 1;
        }
        store_entry(&mut self.url_timings, url, secs, nanos);
        proof {
            assert(self.url_timings@.len() == self.url_timings.len());
        }
    }

    /// The average duration of the recorded operations, as whole seconds and the
    /// nanoseconds below a second: the sum of the stored durations over the number of
    /// operations, rounded down to the nanosecond, and zero where none was recorded.
    pub fn average(&self) -> (avg: (u64, u32))
        requires
            self.wf(),
        ensures
            avg.0 == average_nanos(self@) / nanos_per_sec(),
            avg.1 == average_nanos(self@) % nanos_per_sec(),
    {
        let count: u128 = self.successful_requests as u128 + self.failed_requests as u128;
        if count == 0 {
            return (0, 0);
        }
        let len = self.url_timings.len();
        let mut secs_sum: u128 = 0;
        let mut nanos_sum: u128 = 0;
        let mut i: usize = 0;
        while i < len
            invariant
                len == self.url_timings@.len(),
                i <= len,
                normal_entries(self.url_timings@),
                secs_sum == secs_total(self.url_timings@.take(i as int)),
                nanos_sum == subsec_total(self.url_timings@.take(i as int)),
                secs_sum <= i * u64::MAX,
                nanos_sum <= i * 999_999_999,
            decreases len - i,
        {
            proof {
                let next = self.url_timings@.take(i + 1);
                assert(next.drop_last() =~= self.url_timings@.take(i as int));
                assert(next.last() == self.url_timings@[i as int]);
                assert(i * u64::MAX + u64::MAX == (i + 1) * u64::MAX) by (nonlinear_arith);
                assert(i * 999_999_999 + 999_999_999 == (i + 1) * 999_999_999)
                    by (nonlinear_arith);
                assert(i * u64::MAX + u64::MAX <= u64::MAX * u64::MAX) by (nonlinear_arith)
                    requires
                        i < u64::MAX,
                ;
                assert(i * 999_999_999 + 999_999_999 <= u64::MAX * 999_999_999)
                    by (nonlinear_arith)
                    requires
                        i < u64::MAX,
                ;
            }
            secs_sum = secs_sum + self.url_timings[i].secs as u128;
            nanos_sum = nanos_sum + self.url_timings[i].nanos as u128;
            i += 1;
        }
        proof {
            assert(self.url_timings@.take(len as int) =~= self.url_timings@);
            lemma_totals(self.url_timings@);
            assert(len * u64::MAX <= count * u64::MAX) by (nonlinear_arith)
                requires
                    len <= count,
            ;
            assert(len * 999_999_999 <= count * 999_999_999) by (nonlinear_arith)
                requires
                    len <= count,
            ;
        }
        let whole = secs_sum / count;
        let left = secs_sum % count;
        proof {
            lemma_div_is_ordered(secs_sum as int, count * u64::MAX, count as int);
            lemma_div_multiples_vanish(u64::MAX as int, count as int);
            assert(count * u64::MAX == u64::MAX * count) by (nonlinear_arith);
            assert(whole <= u64::MAX);
            assert(left * 1_000_000_000 < count * 1_000_000_000) by (nonlinear_arith)
                requires
                    left < count,
            ;
            assert(count * 1_000_000_000 <= 0x2_0000_0000_0000_0000 * 1_000_000_000)
                by (nonlinear_arith)
                requires
                    count <= 0x2_0000_0000_0000_0000,
            ;
            assert(count * 999_999_999 <= 0x2_0000_0000_0000_0000 * 999_999_999)
                by (nonlinear_arith)
                requires
                    count <= 0x2_0000_0000_0000_0000,
            ;
        }
        let rest = (left * 1_000_000_000 + nanos_sum) / count;
        proof {
            let sum = total_nanos(self@.timings) as int;
            let carried = left * 1_000_000_000 + nanos_sum;
            lemma_fundamental_div_mod(secs_sum as int, count as int);
            assert(count * whole == whole * count) by (nonlinear_arith);
            assert(sum == (whole * 1_000_000_000) * count + carried) by (nonlinear_arith)
                requires
                    sum == secs_sum * 1_000_000_000 + nanos_sum,
                    secs_sum == whole * count + left,
                    carried == left * 1_000_000_000 + nanos_sum,
            ;
            lemma_hoist_over_denominator(carried, whole * 1_000_000_000, count as nat);
            assert(sum / (count as int) == whole * 1_000_000_000 + rest);
            assert(carried < count * 2_000_000_000) by (nonlinear_arith)
                requires
                    left * 1_000_000_000 < count * 1_000_000_000,
                    nanos_sum <= count * 999_999_999,
                    carried == left * 1_000_000_000 + nanos_sum,
            ;
            lemma_div_is_ordered(carried, count * 2_000_000_000, count as int);
            assert(count * 2_000_000_000 == 2_000_000_000 * count) by (nonlinear_arith);
            lemma_div_multiples_vanish(2_000_000_000, count as int);
            assert(rest <= 2_000_000_000);
            assert(whole * 1_000_000_000 <= u64::MAX * 1_000_000_000) by (nonlinear_arith)
                requires
                    whole <= u64::MAX,
            ;
            // The average is below the largest duration that an entry can hold.
            assert(sum <= count * 0x3B9A_C9FF_FFFF_FFFF_FFFF_FFFF) by (nonlinear_arith)
                requires
                    sum == secs_sum * 1_000_000_000 + nanos_sum,
                    secs_sum <= count * u64::MAX,
                    nanos_sum <= count * 999_999_999,
                    u64::MAX == 0xFFFF_FFFF_FFFF_FFFF,
            ;
            lemma_div_is_ordered(sum, count * 0x3B9A_C9FF_FFFF_FFFF_FFFF_FFFF, count as int);
            assert(count * 0x3B9A_C9FF_FFFF_FFFF_FFFF_FFFF == 0x3B9A_C9FF_FFFF_FFFF_FFFF_FFFF
                * count) by (nonlinear_arith);
            lemma_div_multiples_vanish(0x3B9A_C9FF_FFFF_FFFF_FFFF_FFFF, count as int);
        }
        let avg = whole * 1_000_000_000 + rest;
        ((avg / 1_000_000_000) as u64, (avg % 1_000_000_000) as u32)
    }

    /// The report on what was recorded, with `average` as the text of the average
    /// duration.
    pub fn summary_with(&self, average: &str) -> (summary: String)
        ensures
            summary@ == report_text(self@, average@),
    {
        let count: u128 = self.successful_requests as u128 + self.failed_requests as u128;
        let mut summary = String::from_str("Performance Summary:\nTotal Requests: ");
        summary.append(decimal(count).as_str());
        summary.append("\nSuccessful: ");
        summary.append(decimal(self.successful_requests as u128).as_str());
        summary.append("\nFailed: ");
        summary.append(decimal(self.failed_requests as u128).as_str());
        summary.append("\nAverage Duration: ");
        summary.append(average);
        summary.append("\nTotal Data: ");
        summary.append(decimal(self.total_bytes).as_str());
        summary.append(" bytes");
        summary
    }

    /// The report on what was recorded. It changes nothing, so that asking again gives
    /// the same text.
    pub fn get_summary(&self) -> (summary: String)
        requires
            self.wf(),
        ensures
            summary@ == summary_text(self@),
    {
        let (secs, nanos) = self.average();
        let average = format_duration(&duration_of(secs, nanos));
        self.summary_with(average.as_str())
    }

    /// The number of successes recorded.
    pub fn successful_requests(&self) -> (n: usize)
        ensures
            n == self@.successful,
    {
        self.successful_requests
    }

    /// The number of failures recorded.
    pub fn failed_requests(&self) -> (n: usize)
        ensures
            n == self@.failed,
    {
        self.failed_requests
    }

    /// The bytes handled by the successes recorded.
    pub fn total_bytes(&self) -> (n: u128)
        ensures
            n == self@.total_bytes,
    {
        self.total_bytes
    }
}

} // verus!
