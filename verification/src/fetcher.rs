//! The bounded fetcher: a batch of requests of which at most a fixed number are in flight
//! at any time.
//!
//! The fetcher sends nothing itself. Its caller asks it what to do next, starts the request
//! that it names, and reports each response as it arrives; the fetcher admits the requests
//! in the order of the batch, records every completed request in its metrics and hands
//! out the outcomes in the order of the batch.

use crate::clock::duration_nanos;
use crate::list::turned;
use crate::metrics::{
    apply, apply_all, begun, bytes_fit, lemma_bytes_add_up, lemma_counts_add_up, lemma_start_kept,
    nothing_recorded, success_bytes, Metrics, MetricsView, Sample,
};
use crate::text::text_views;
use std::time::Duration;
use vstd::prelude::*;
use vstd::string::*;
use vstd::utf8::{decode_utf8, valid_utf8};

verus! {

/// Why a fetch gave no content, or why no fetcher could be made.
#[derive(Debug)]
pub enum FetchError {
    /// The transport failed; the text describes how.
    RequestFailed(String),
    /// The admission gate was closed before the request could start.
    TooManyRequests,
    /// A fetcher was asked for that would admit no request at all.
    ZeroConcurrency,
}

/// A `FetchError` as plain values.
pub enum FetchErrorView {
    RequestFailed(Seq<char>),
    TooManyRequests,
    ZeroConcurrency,
}

impl View for FetchError {
    type V = FetchErrorView;

    open spec fn view(&self) -> FetchErrorView {
        match self {
            FetchError::RequestFailed(description) => FetchErrorView::RequestFailed(description@),
            FetchError::TooManyRequests => FetchErrorView::TooManyRequests,
            FetchError::ZeroConcurrency => FetchErrorView::ZeroConcurrency,
        }
    }
}

/// The text of an error.
pub open spec fn error_text(error: FetchErrorView) -> Seq<char> {
    match error {
        FetchErrorView::RequestFailed(description) => "Request failed: "@ + description,
        FetchErrorView::TooManyRequests => "Too many requests"@,
        FetchErrorView::ZeroConcurrency => "Concurrency limit must be positive"@,
    }
}

impl FetchError {
    /// The error as a line of text.
    pub fn message(&self) -> (text: String)
        ensures
            text@ == error_text(self@),
    {
        match self {
            FetchError::RequestFailed(description) => {
                let mut text = String::from_str("Request failed: ");
                text.append(description.as_str());
                text
            },
            FetchError::TooManyRequests => String::from_str("Too many requests"),
            FetchError::ZeroConcurrency => String::from_str("Concurrency limit must be positive"),
        }
    }
}

/// The outcome of one fetch as plain values: the content, or the error.
pub type OutcomeView = Result<Seq<char>, FetchErrorView>;

/// The view of an outcome.
pub open spec fn outcome_view(outcome: Result<String, FetchError>) -> OutcomeView {
    match outcome {
        Ok(content) => Ok(content@),
        Err(error) => Err(error@),
    }
}

/// The text that `String::from_utf8_lossy` gives for `bytes`.
pub uninterp spec fn lossy_text(bytes: Seq<u8>) -> Seq<char>;

/// Decodes with `String::from_utf8_lossy`, which never fails: bytes that are no valid
/// UTF-8 are replaced. Valid UTF-8 is decoded as it stands.
#[verifier::external_body]
fn decode_lossy(bytes: &Vec<u8>) -> (text: String)
    ensures
        text@ == lossy_text(bytes@),
        valid_utf8(bytes@) ==> text@ == decode_utf8(bytes@),
{
    String::from_utf8_lossy(bytes).into_owned()
}

/// What the transport reports of one request: the body, or a description of the failure.
pub type ResponseView = Result<Seq<u8>, Seq<char>>;

/// The view of a response.
pub open spec fn response_view(response: Result<Vec<u8>, String>) -> ResponseView {
    match response {
        Ok(body) => Ok(body@),
        Err(description) => Err(description@),
    }
}

/// The outcome of a request that was sent and got `response`: a body is decoded, with
/// replacement of what is no valid UTF-8, and a failure keeps its description.
pub open spec fn outcome_of(response: ResponseView) -> OutcomeView {
    match response {
        Ok(body) => Ok(lossy_text(body)),
        Err(description) => Err(FetchErrorView::RequestFailed(description)),
    }
}

/// What a request for `url` that got `response` after `nanos` nanoseconds reports to the
/// metrics: a body is a success with its length in bytes, a failure is a failure.
pub open spec fn sample_of(url: Seq<char>, response: ResponseView, nanos: nat) -> Sample {
    Sample {
        key: url,
        nanos,
        bytes: match response {
            Ok(body) => Some(body.len()),
            Err(_) => None,
        },
    }
}

/// What the transport reports of one request, and how long the request took.
pub type Report = (Result<Vec<u8>, String>, Duration);

/// What the requests for `urls` report to the metrics, each with its report.
pub open spec fn samples_of(urls: Seq<Seq<char>>, reports: Seq<Report>) -> Seq<Sample> {
    Seq::new(
        reports.len(),
        |i: int| sample_of(urls[i], response_view(reports[i].0), duration_nanos(reports[i].1)),
    )
}

/// The outcome of a request of a batch: refused where the admission gate is closed, and
/// else what its response gives.
pub open spec fn batch_outcome(closed: bool, response: ResponseView) -> OutcomeView {
    if closed {
        Err(FetchErrorView::TooManyRequests)
    } else {
        outcome_of(response)
    }
}

/// Where one request of a batch stands.
#[derive(Debug)]
enum Slot {
    Waiting,
    InFlight,
    Done(Result<String, FetchError>),
}

/// Where one request of a batch stands, as plain values.
pub enum SlotView {
    /// Not admitted yet.
    Waiting,
    /// Admitted: the request is under way and holds a permit.
    InFlight,
    /// Completed or refused, with its outcome.
    Done(OutcomeView),
}

impl View for Slot {
    type V = SlotView;

    closed spec fn view(&self) -> SlotView {
        match self {
            Slot::Waiting => SlotView::Waiting,
            Slot::InFlight => SlotView::InFlight,
            Slot::Done(outcome) => SlotView::Done(outcome_view(*outcome)),
        }
    }
}

/// The views of a list of slots.
spec fn slot_views(slots: Seq<Slot>) -> Seq<SlotView> {
    Seq::new(slots.len(), |i: int| slots[i]@)
}

/// The number of requests in flight: those that hold a permit.
pub open spec fn in_flight(slots: Seq<SlotView>) -> nat
    decreases slots.len(),
{
    if slots.len() == 0 {
        0
    } else {
        in_flight(slots.drop_last()) + if slots.last() is InFlight {
            1nat
        } else {
            0nat
        }
    }
}

/// The request at `index` is the first of the batch that waits to be admitted.
pub open spec fn is_first_waiting(slots: Seq<SlotView>, index: int) -> bool {
    &&& 0 <= index < slots.len()
    &&& slots[index] is Waiting
    &&& forall|j: int| 0 <= j < index ==> !((#[trigger] slots[j]) is Waiting)
}

/// No request of the batch waits to be admitted.
pub open spec fn none_waiting(slots: Seq<SlotView>) -> bool {
    forall|i: int| 0 <= i < slots.len() ==> !((#[trigger] slots[i]) is Waiting)
}

/// The requests that wait are the last of the batch: requests are admitted in order.
pub open spec fn waiting_last(slots: Seq<SlotView>) -> bool {
    forall|i: int, j: int|
        0 <= i <= j < slots.len() && (#[trigger] slots[i]) is Waiting ==> (#[trigger] slots[j])
            is Waiting
}

/// The batch after the admission gate is closed: every request that waited is refused.
pub open spec fn refuse_waiting(slots: Seq<SlotView>) -> Seq<SlotView> {
    Seq::new(
        slots.len(),
        |i: int|
            if slots[i] is Waiting {
                SlotView::Done(Err(FetchErrorView::TooManyRequests))
            } else {
                slots[i]
            },
    )
}

/// The slots of a batch of `len` requests that has just begun: all wait, or all are
/// refused where the admission gate is closed.
pub open spec fn fresh_slots(len: nat, closed: bool) -> Seq<SlotView> {
    Seq::new(
        len,
        |i: int|
            if closed {
                SlotView::Done(Err(FetchErrorView::TooManyRequests))
            } else {
                SlotView::Waiting
            },
    )
}

/// Every request of the batch has its outcome.
pub open spec fn all_done(slots: Seq<SlotView>) -> bool {
    forall|i: int| 0 <= i < slots.len() ==> (#[trigger] slots[i]) is Done
}

/// The outcomes of a batch in which every request has one.
pub open spec fn outcomes(slots: Seq<SlotView>) -> Seq<OutcomeView> {
    Seq::new(slots.len(), |i: int| slots[i]->Done_0)
}

/// The views of a list of outcomes.
pub open spec fn outcome_views(results: Seq<Result<String, FetchError>>) -> Seq<OutcomeView> {
    Seq::new(results.len(), |i: int| outcome_view(results[i]))
}

/// Changing one slot changes the number in flight by what that slot gives and takes.
pub proof fn lemma_in_flight_update(slots: Seq<SlotView>, index: int, slot: SlotView)
    requires
        0 <= index < slots.len(),
    ensures
        in_flight(slots.update(index, slot)) + (if slots[index] is InFlight {
            1nat
        } else {
            0nat
        }) == in_flight(slots) + (if slot is InFlight {
            1nat
        } else {
            0nat
        }),
    decreases slots.len(),
{
    if index == slots.len() - 1 {
        assert(slots.update(index, slot).drop_last() =~= slots.drop_last());
    } else {
        lemma_in_flight_update(slots.drop_last(), index, slot);
        assert(slots.update(index, slot).drop_last() =~= slots.drop_last().update(index, slot));
    }
}

/// No more requests are in flight than the batch has, and none is exactly where no slot
/// is in flight.
pub proof fn lemma_in_flight_bounds(slots: Seq<SlotView>)
    ensures
        in_flight(slots) <= slots.len(),
        in_flight(slots) == 0 <==> forall|i: int|
            0 <= i < slots.len() ==> !((#[trigger] slots[i]) is InFlight),
    decreases slots.len(),
{
    if slots.len() > 0 {
        lemma_in_flight_bounds(slots.drop_last());
        if in_flight(slots) == 0 {
            assert forall|i: int| 0 <= i < slots.len() implies !((#[trigger] slots[i])
                is InFlight) by {
                if i < slots.len() - 1 {
                    assert(slots.drop_last()[i] == slots[i]);
                }
            }
        }
        if forall|i: int| 0 <= i < slots.len() ==> !((#[trigger] slots[i]) is InFlight) {
            assert forall|i: int| 0 <= i < slots.drop_last().len() implies !((
            #[trigger] slots.drop_last()[i]) is InFlight) by {
                assert(slots.drop_last()[i] == slots[i]);
            }
            assert(!(slots[slots.len() - 1] is InFlight));
        }
    }
}

/// The lengths of the bodies among `reports`, added up.
pub open spec fn body_bytes(reports: Seq<Report>) -> nat
    decreases reports.len(),
{
    if reports.len() == 0 {
        0
    } else {
        body_bytes(reports.drop_last()) + match reports.last().0 {
            Ok(body) => body@.len(),
            Err(_) => 0,
        }
    }
}

/// After a batch in which every request was sent, a fetcher that had recorded nothing
/// as the batch began holds as many successes and failures together as the batch has
/// addresses.
pub proof fn lemma_every_request_counted(
    before: MetricsView,
    urls: Seq<Seq<char>>,
    reports: Seq<Report>,
)
    requires
        before.successful == 0,
        before.failed == 0,
        reports.len() == urls.len(),
        urls.len() <= usize::MAX,
    ensures
        apply_all(before, samples_of(urls, reports)).successful + apply_all(
            before,
            samples_of(urls, reports),
        ).failed == urls.len(),
{
    lemma_counts_add_up(before, samples_of(urls, reports));
}

/// After a batch in which every request was sent, the byte total of a fetcher that had
/// recorded nothing as the batch began is the sum of the lengths of the bodies that were
/// fetched, counted as they were received: a failure adds nothing, and an address that
/// stands twice in the batch is counted twice.
pub proof fn lemma_bytes_of_bodies(before: MetricsView, urls: Seq<Seq<char>>, reports: Seq<Report>)
    requires
        before.total_bytes == 0,
        reports.len() <= usize::MAX,
    ensures
        apply_all(before, samples_of(urls, reports)).total_bytes == body_bytes(reports),
{
    let samples = samples_of(urls, reports);
    lemma_sample_bytes(urls, reports);
    assert(bytes_fit(samples)) by {
        assert forall|i: int| 0 <= i < samples.len() implies ((#[trigger] samples[i]).bytes matches Some(
            bytes,
        ) ==> bytes <= usize::MAX) by {
            if let Ok(body) = reports[i].0 {
                assert(body@.len() == body.len());
            }
        }
    }
    lemma_bytes_add_up(before, samples);
}

/// The bytes that the samples of a batch report are those of its bodies.
proof fn lemma_sample_bytes(urls: Seq<Seq<char>>, reports: Seq<Report>)
    ensures
        success_bytes(samples_of(urls, reports)) == body_bytes(reports),
    decreases reports.len(),
{
    if reports.len() > 0 {
        lemma_sample_bytes(urls, reports.drop_last());
        assert(samples_of(urls, reports).drop_last() =~= samples_of(urls, reports.drop_last()));
    }
}

/// In every state of a fetcher, no more requests are in flight than its limit allows.
/// Every operation keeps the invariant, so this holds at each point of a batch.
pub proof fn lemma_in_flight_within_limit(fetcher: Fetcher)
    requires
        fetcher.wf(),
    ensures
        in_flight(fetcher@.slots) <= fetcher@.max_concurrent,
{
}

/// What a fetcher holds, as plain values.
pub struct FetcherView {
    /// What has been recorded.
    pub metrics: MetricsView,
    /// The number of requests that may be in flight at once.
    pub max_concurrent: nat,
    /// Whether the admission gate is closed.
    pub closed: bool,
    /// The addresses of the batch.
    pub urls: Seq<Seq<char>>,
    /// Where each request of the batch stands.
    pub slots: Seq<SlotView>,
}

/// What holds of every fetcher: the limit is positive and no more requests are in flight
/// than it allows, each address has its slot, requests are admitted in order, and none
/// waits once the admission gate is closed.
pub open spec fn valid(v: FetcherView) -> bool {
    &&& v.max_concurrent >= 1
    &&& in_flight(v.slots) <= v.max_concurrent
    &&& v.slots.len() == v.urls.len()
    &&& waiting_last(v.slots)
    &&& (v.closed ==> none_waiting(v.slots))
}

/// What the caller is to do next.
#[derive(Debug)]
pub enum Action {
    /// Send the request with this place in the batch, to this address.
    Start(usize, String),
    /// Wait for a response and report it: the limit is reached, or no request waits.
    Wait,
    /// Nothing is left to do: every request of the batch has its outcome.
    Finished,
}

/// Fetches batches of addresses with a bound on the requests in flight.
#[derive(Debug)]
pub struct Fetcher {
    metrics: Metrics,
    max_concurrent: usize,
    closed: bool,
    urls: Vec<String>,
    slots: Vec<Slot>,
    admitted: usize,
    in_flight: usize,
}

impl View for Fetcher {
    type V = FetcherView;

    closed spec fn view(&self) -> FetcherView {
        FetcherView {
            metrics: self.metrics@,
            max_concurrent: self.max_concurrent as nat,
            closed: self.closed,
            urls: text_views(self.urls@),
            slots: slot_views(self.slots@),
        }
    }
}

impl Fetcher {
    /// The counters of the fetcher agree with its slots.
    pub closed spec fn counted(&self) -> bool {
        &&& self.metrics.wf()
        &&& self.admitted <= self.slots@.len()
        &&& forall|i: int|
            0 <= i < self.slots@.len() ==> ((#[trigger] self.slots@[i])@ is Waiting <==> i
                >= self.admitted)
        &&& self.in_flight == in_flight(slot_views(self.slots@))
    }

    /// The fetcher's invariant.
    pub open spec fn wf(&self) -> bool {
        self.counted() && valid(self@)
    }

    /// A fetcher that admits up to `max_concurrent` requests at once, with nothing
    /// recorded and no batch. A limit of zero is refused.
    pub fn new(max_concurrent: usize) -> (made: Result<Fetcher, FetchError>)
        ensures
            match made {
                Ok(fetcher) => max_concurrent >= 1 && fetcher.wf() && fetcher@ == (FetcherView {
                    metrics: nothing_recorded(),
                    max_concurrent: max_concurrent as nat,
                    closed: false,
                    urls: Seq::empty(),
                    slots: Seq::empty(),
                }),
                Err(error) => max_concurrent == 0 && error@ == FetchErrorView::ZeroConcurrency,
            },
    {
        if max_concurrent == 0 {
            return Err(FetchError::ZeroConcurrency);
        }
        let fetcher = Fetcher {
            metrics: Metrics::new(),
            max_concurrent,
            closed: false,
            urls: Vec::new(),
            slots: Vec::new(),
            admitted: 0,
            in_flight: 0,
        };
        assert(fetcher@.urls =~= Seq::empty());
        assert(fetcher@.slots =~= Seq::empty());
        Ok(fetcher)
    }

    /// Begins a batch: marks its start in the metrics and lets every request wait, or
    /// refuses every request where the admission gate is closed. A fetcher whose batch
    /// still has requests takes no other: it answers `false` and stays as it is.
    #[verifier::loop_isolation(false)]
    pub fn begin(&mut self, urls: Vec<String>) -> (accepted: bool)
        requires
            old(self).wf(),
        ensures
            final(self).wf(),
            accepted == (old(self)@.slots.len() == 0),
            accepted ==> (final(self)@.metrics.start matches Some(start) && final(self)@ == (
            FetcherView {
                metrics: begun(old(self)@.metrics, start),
                urls: text_views(urls@),
                slots: fresh_slots(urls@.len(), old(self)@.closed),
                ..old(self)@
            })),
            accepted ==> in_flight(final(self)@.slots) == 0,
            !accepted ==> final(self)@ == old(self)@,
    {
        if self.slots.len() != 0 {
            return false;
        }
        self.metrics.start_operation();
        let len = urls.len();
        let mut slots: Vec<Slot> = Vec::new();
        let mut i: usize = 0;
        while i < len
            invariant
                i <= len,
                slots@.len() == i,
                forall|j: int|
                    0 <= j < i ==> (#[trigger] slots@[j])@ == fresh_slots(
                        len as nat,
                        self.closed,
                    )[j],
            decreases len - i,
        {
            if self.closed {
                slots.push(Slot::Done(Err(FetchError::TooManyRequests)));
            } else {
                slots.push(Slot::Waiting);
            }
            i += 1;
        }
        self.urls = urls;
        self.slots = slots;
        self.admitted = if self.closed {
            len
        } else {
            0
        };
        self.in_flight = 0;
        proof {
            assert(self@.slots =~= fresh_slots(len as nat, self.closed));
            lemma_in_flight_bounds(self@.slots);
        }
        true
    }

    /// Says what to do next, and admits the request that it tells the caller to send:
    /// the first that waits, as long as fewer requests are in flight than the limit
    /// allows.
    pub fn next_action(&mut self) -> (action: Action)
        requires
            old(self).wf(),
        ensures
            final(self).wf(),
            action is Start <==> !none_waiting(old(self)@.slots) && in_flight(old(self)@.slots)
                < old(self)@.max_concurrent,
            action is Finished <==> all_done(old(self)@.slots),
            match action {
                Action::Start(index, url) => {
                    &&& is_first_waiting(old(self)@.slots, index as int)
                    &&& in_flight(old(self)@.slots) < old(self)@.max_concurrent
                    &&& url@ == old(self)@.urls[index as int]
                    &&& final(self)@ == (FetcherView {
                        slots: old(self)@.slots.update(index as int, SlotView::InFlight),
                        ..old(self)@
                    })
                    &&& in_flight(final(self)@.slots) == in_flight(old(self)@.slots) + 1
                },
                Action::Wait => {
                    &&& final(self)@ == old(self)@
                    &&& in_flight(old(self)@.slots) > 0
                    &&& (none_waiting(old(self)@.slots) || in_flight(old(self)@.slots) == old(
                        self,
                    )@.max_concurrent)
                },
                Action::Finished => final(self)@ == old(self)@ && all_done(old(self)@.slots),
            },
    {
        if self.admitted < self.slots.len() && self.in_flight < self.max_concurrent {
            let index = self.admitted;
            let url = self.urls[index].clone();
            self.slots.set(index, Slot::InFlight);
            self.admitted += 1;
            self.in_flight += 1;
            proof {
                assert(old(self).slots@[index as int]@ is Waiting);
                assert(old(self)@.slots[index as int] is Waiting);
                assert(self@.slots =~= old(self)@.slots.update(index as int, SlotView::InFlight));
                lemma_in_flight_update(old(self)@.slots, index as int, SlotView::InFlight);
                assert(self@.urls == old(self)@.urls);
            }
            Action::Start(index, url)
        } else {
            proof {
                lemma_in_flight_bounds(self@.slots);
                if self.admitted == self.slots@.len() {
                    assert forall|i: int| 0 <= i < self@.slots.len() implies !((
                    #[trigger] self@.slots[i]) is Waiting) by {
                        assert(!(self.slots@[i]@ is Waiting));
                    }
                }
                if self.in_flight > 0 {
                    let k = choose|k: int|
                        0 <= k < self@.slots.len() && (#[trigger] self@.slots[k]) is InFlight;
                    assert(!(self@.slots[k] is Done));
                }
            }
            if self.in_flight > 0 {
                Action::Wait
            } else {
                Action::Finished
            }
        }
    }

    /// Takes the response to the request at `index`: records it in the metrics, keeps
    /// the outcome and gives the permit back, whether the request succeeded or failed. A
    /// report on a request that is not in flight is refused: the answer is `false` and
    /// nothing changes.
    pub fn complete(
        &mut self,
        index: usize,
        response: Result<Vec<u8>, String>,
        elapsed: Duration,
    ) -> (accepted: bool)
        requires
            old(self).wf(),
        ensures
            final(self).wf(),
            accepted == (index < old(self)@.slots.len() && old(self)@.slots[index as int]
                is InFlight),
            accepted ==> final(self)@ == (FetcherView {
                metrics: apply(
                    old(self)@.metrics,
                    sample_of(
                        old(self)@.urls[index as int],
                        response_view(response),
                        duration_nanos(elapsed),
                    ),
                ),
                slots: old(self)@.slots.update(
                    index as int,
                    SlotView::Done(outcome_of(response_view(response))),
                ),
                ..old(self)@
            }),
            accepted ==> in_flight(final(self)@.slots) + 1 == in_flight(old(self)@.slots),
            !accepted ==> final(self)@ == old(self)@,
    {
        if index >= self.slots.len() {
            return false;
        }
        let under_way = match &self.slots[index] {
            Slot::InFlight => true,
            _ => false,
        };
        if !under_way {
            return false;
        }
        let url = self.urls[index].clone();
        let ghost outcome = outcome_of(response_view(response));
        match response {
            Ok(body) => {
                self.metrics.record_success(url, elapsed, body.len());
                let content = decode_lossy(&body);
                self.slots.set(index, Slot::Done(Ok(content)));
            },
            Err(description) => {
                self.metrics.record_failure(url, elapsed);
                self.slots.set(index, Slot::Done(Err(FetchError::RequestFailed(description))));
            },
        }
        proof {
            assert(self@.slots =~= old(self)@.slots.update(index as int, SlotView::Done(outcome)));
            lemma_in_flight_update(old(self)@.slots, index as int, SlotView::Done(outcome));
        }
        self.in_flight -= 1;
        true
    }

    /// Closes the admission gate for good: every request that waits is refused without
    /// being sent and without a record in the metrics, and so is every request of a later
    /// batch. Requests in flight go on.
    #[verifier::loop_isolation(false)]
    pub fn close(&mut self)
        requires
            old(self).wf(),
        ensures
            final(self).wf(),
            final(self)@ == (FetcherView {
                closed: true,
                slots: refuse_waiting(old(self)@.slots),
                ..old(self)@
            }),
            in_flight(final(self)@.slots) == in_flight(old(self)@.slots),
    {
        let len = self.slots.len();
        let mut i: usize = self.admitted;
        while i < len
            invariant
                self.admitted <= i <= len,
                len == self.slots@.len(),
                self.urls == old(self).urls,
                self.metrics == old(self).metrics,
                self.max_concurrent == old(self).max_concurrent,
                self.admitted == old(self).admitted,
                self.in_flight == old(self).in_flight,
                in_flight(slot_views(self.slots@)) == in_flight(old(self)@.slots),
                forall|j: int|
                    0 <= j < len ==> (#[trigger] self.slots@[j])@ == if j < i {
                        refuse_waiting(old(self)@.slots)[j]
                    } else {
                        old(self)@.slots[j]
                    },
            decreases len - i,
        {
            proof {
                assert(self.slots@[i as int]@ == old(self)@.slots[i as int]);
                assert(old(self).slots@[i as int]@ is Waiting);
                lemma_in_flight_update(
                    slot_views(self.slots@),
                    i as int,
                    SlotView::Done(Err(FetchErrorView::TooManyRequests)),
                );
            }
            let ghost before = slot_views(self.slots@);
            self.slots.set(i, Slot::Done(Err(FetchError::TooManyRequests)));
            proof {
                assert(slot_views(self.slots@) =~= before.update(
                    i as int,
                    SlotView::Done(Err(FetchErrorView::TooManyRequests)),
                ));
            }
            i += 1;
        }
        self.admitted = len;
        self.closed = true;
        proof {
            assert(self@.slots =~= refuse_waiting(old(self)@.slots));
        }
    }

    /// Hands out the outcomes of the batch in the order of its addresses, once every
    /// request has one, and leaves the fetcher without a batch. Before that the answer is
    /// `None` and nothing changes.
    #[verifier::loop_isolation(false)]
    pub fn finish(&mut self) -> (results: Option<Vec<Result<String, FetchError>>>)
        requires
            old(self).wf(),
        ensures
            final(self).wf(),
            results is Some <==> all_done(old(self)@.slots),
            results matches Some(list) ==> outcome_views(list@) == outcomes(old(self)@.slots)
                && final(self)@ == (FetcherView {
                urls: Seq::empty(),
                slots: Seq::empty(),
                ..old(self)@
            }),
            results is None ==> final(self)@ == old(self)@,
    {
        proof {
            lemma_in_flight_bounds(self@.slots);
        }
        if self.admitted < self.slots.len() || self.in_flight > 0 {
            proof {
                if self.admitted < self.slots.len() {
                    assert(self.slots@[self.admitted as int]@ is Waiting);
                    assert(!(self@.slots[self.admitted as int] is Done));
                } else {
                    let k = choose|k: int|
                        0 <= k < self@.slots.len() && (#[trigger] self@.slots[k]) is InFlight;
                    assert(!(self@.slots[k] is Done));
                }
            }
            return None;
        }
        proof {
            assert forall|i: int| 0 <= i < self@.slots.len() implies (#[trigger] self@.slots[i])
                is Done by {
                assert(!(self.slots@[i]@ is Waiting));
                assert(!(self@.slots[i] is InFlight));
            }
        }
        let mut slots: Vec<Slot> = Vec::new();
        std::mem::swap(&mut self.slots, &mut slots);
        self.urls = Vec::new();
        self.admitted = 0;
        let ghost all = slots@;
        let len = slots.len();
        let mut back = turned(slots);
        let mut list: Vec<Result<String, FetchError>> = Vec::new();
        while back.len() > 0
            invariant
                back@.len() + list@.len() == len,
                back@ == all.reverse().take(back@.len() as int),
                forall|j: int|
                    0 <= j < list@.len() ==> SlotView::Done(outcome_view(#[trigger] list@[j]))
                        == all[j]@,
            decreases back@.len(),
        {
            let ghost k = list@.len() as int;
            let slot = back.pop().unwrap();
            assert(slot == all[k]);
            assert(slot_views(all)[k] is Done);
            match slot {
                Slot::Done(outcome) => {
                    list.push(outcome);
                },
                _ => {
                    unreached::<()>();
                },
            }
            assert(back@ =~= all.reverse().take(back@.len() as int));
        }
        proof {
            assert forall|j: int| 0 <= j < len implies outcome_view(#[trigger] list@[j])
                == old(self)@.slots[j]->Done_0 by {
                assert(SlotView::Done(outcome_view(list@[j])) == all[j]@);
            }
            assert(outcome_views(list@) =~= outcomes(old(self)@.slots));
            assert(self@.urls =~= Seq::empty());
            assert(self@.slots =~= Seq::empty());
        }
        Some(list)
    }

    /// Runs a whole batch of which the responses are known: `reports` holds for each
    /// address what the transport gave and how long it took. The requests are admitted in
    /// order as far as the limit allows, and completed in order.
    ///
    /// There is one outcome for each address, in the order of the addresses, and every
    /// request that was sent is recorded in the metrics once. Where the admission gate is
    /// closed, every request is refused and nothing is recorded.
    #[verifier::loop_isolation(false)]
    pub fn fetch_urls(&mut self, urls: Vec<String>, reports: Vec<Report>) -> (results: Vec<
        Result<String, FetchError>,
    >)
        requires
            old(self).wf(),
            old(self)@.slots.len() == 0,
            reports@.len() == urls@.len(),
        ensures
            final(self).wf(),
            results@.len() == urls@.len(),
            forall|i: int|
                0 <= i < urls@.len() ==> outcome_view(#[trigger] results@[i]) == batch_outcome(
                    old(self)@.closed,
                    response_view(reports@[i].0),
                ),
            final(self)@.metrics.start matches Some(start) && final(self)@ == (FetcherView {
                metrics: if old(self)@.closed {
                    begun(old(self)@.metrics, start)
                } else {
                    apply_all(
                        begun(old(self)@.metrics, start),
                        samples_of(text_views(urls@), reports@),
                    )
                },
                ..old(self)@
            }),
            !old(self)@.closed && old(self)@.metrics.successful == 0 && old(self)@.metrics.failed
                == 0 ==> final(self)@.metrics.successful + final(self)@.metrics.failed
                == urls@.len(),
            !old(self)@.closed && old(self)@.metrics.total_bytes == 0
                ==> final(self)@.metrics.total_bytes == body_bytes(reports@),
    {
        let ghost closed = self@.closed;
        let ghost addresses = text_views(urls@);
        let ghost samples = samples_of(addresses, reports@);
        let ghost limit = self@.max_concurrent;
        let len = urls.len();
        let accepted = self.begin(urls);
        assert(accepted);
        let ghost started = self@.metrics;

        let ghost given = reports@;
        let mut left = turned(reports);
        let ghost pending = left@;

        let ghost mut admitted: int = if closed {
            len as int
        } else {
            0
        };
        let mut i: usize = 0;
        proof {
            lemma_in_flight_bounds(self@.slots);
            assert(samples.take(0) =~= Seq::<Sample>::empty());
        }
        while i < len
            invariant
                self.wf(),
                i <= len,
                i <= admitted <= len,
                closed ==> admitted == len,
                left@ == pending.take(len - i),
                self@.max_concurrent == limit,
                self@.closed == closed,
                self@.urls == addresses,
                self@.slots.len() == len,
                self@.metrics == if closed {
                    started
                } else {
                    apply_all(started, samples.take(i as int))
                },
                !closed ==> in_flight(self@.slots) == admitted - i,
                forall|j: int|
                    0 <= j < len ==> (#[trigger] self@.slots[j]) == if closed || j < i {
                        SlotView::Done(batch_outcome(closed, response_view(given[j].0)))
                    } else if j < admitted {
                        SlotView::InFlight
                    } else {
                        SlotView::Waiting
                    },
            decreases len - i,
        {
            let mut admitting = true;
            while admitting
                invariant
                    self.wf(),
                    i < len,
                    i <= admitted <= len,
                    closed ==> admitted == len,
                    self@.max_concurrent == limit,
                    self@.closed == closed,
                    self@.urls == addresses,
                    self@.slots.len() == len,
                    self@.metrics == if closed {
                        started
                    } else {
                        apply_all(started, samples.take(i as int))
                    },
                    !closed ==> in_flight(self@.slots) == admitted - i,
                    !admitting && !closed ==> admitted > i,
                    forall|j: int|
                        0 <= j < len ==> (#[trigger] self@.slots[j]) == if closed || j < i {
                            SlotView::Done(batch_outcome(closed, response_view(given[j].0)))
                        } else if j < admitted {
                            SlotView::InFlight
                        } else {
                            SlotView::Waiting
                        },
                decreases len - admitted + if admitting { 1int } else { 0int },
            {
                let ghost before = self@.slots;
                match self.next_action() {
                    Action::Start(index, _) => {
                        proof {
                            assert(index == admitted) by {
                                if index < admitted {
                                    assert(!(before[index as int] is Waiting));
                                } else if index > admitted {
                                    assert(before[admitted] is Waiting);
                                }
                            }
                            admitted = admitted + 1;
                        }
                    },
                    Action::Wait => {
                        admitting = false;
                    },
                    Action::Finished => {
                        admitting = false;
                        proof {
                            if !closed {
                                assert(before[i as int] is Done);
                            }
                        }
                    },
                }
            }
            let report = left.pop().unwrap();
            assert(report == given[i as int]) by {
                assert(report == pending[len - 1 - i]);
                assert(pending == given.reverse());
            }
            let ghost response = response_view(report.0);
            let ghost nanos = duration_nanos(report.1);
            let accepted = self.complete(i, report.0, report.1);
            proof {
                assert(left@ =~= pending.take(len - (i + 1)));
                assert(accepted == !closed);
                if !closed {
                    assert(samples.take(i + 1).drop_last() =~= samples.take(i as int));
                    assert(samples.take(i + 1).last() == sample_of(addresses[i as int], response, nanos));
                }
            }
            i += 1;
        }
        proof {
            assert(samples.take(len as int) =~= samples);
            assert forall|j: int| 0 <= j < len implies (#[trigger] self@.slots[j]) is Done by {}
        }
        let ghost done = self@.slots;
        let results = self.finish().unwrap();
        proof {
            assert(outcome_views(results@).len() == outcomes(done).len());
            assert forall|j: int| 0 <= j < len implies outcome_view(#[trigger] results@[j])
                == batch_outcome(closed, response_view(given[j].0)) by {
                assert(outcome_views(results@)[j] == outcomes(done)[j]);
            }
            assert(old(self)@.urls =~= Seq::empty());
            assert(old(self)@.slots =~= Seq::empty());
            lemma_start_kept(started, samples);
            if !closed {
                assert(given.len() == reports.len());
                if started.successful == 0 && started.failed == 0 {
                    lemma_every_request_counted(started, addresses, given);
                }
                if started.total_bytes == 0 {
                    lemma_bytes_of_bodies(started, addresses, given);
                }
            }
        }
        results
    }

    /// The number of requests that may be in flight at once.
    pub fn max_concurrent(&self) -> (limit: usize)
        ensures
            limit == self@.max_concurrent,
    {
        self.max_concurrent
    }

    /// The number of requests in flight.
    pub fn in_flight(&self) -> (count: usize)
        requires
            self.wf(),
        ensures
            count == in_flight(self@.slots),
            count <= self@.max_concurrent,
    {
        self.in_flight
    }

    /// Whether the admission gate is closed.
    pub fn is_closed(&self) -> (closed: bool)
        ensures
            closed == self@.closed,
    {
        self.closed
    }

    /// What has been recorded.
    pub fn metrics(&self) -> (metrics: &Metrics)
        requires
            self.wf(),
        ensures
            metrics.wf(),
            metrics@ == self@.metrics,
    {
        &self.metrics
    }

    /// The report on what has been recorded.
    pub fn get_metrics(&self) -> (summary: String)
        requires
            self.wf(),
        ensures
            summary@ == crate::metrics::summary_text(self@.metrics),
    {
        self.metrics.get_summary()
    }
}

} // verus!
