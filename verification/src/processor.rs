//! The parallel processor: the title, the links and the text of each document of a batch.

use crate::clock::{duration_nanos, elapsed_since, now};
use crate::list::turned;
use crate::markup::{
    option_views, parse_document, parse_selector, parsed_document, parsed_selector, select_attr,
    select_text, selected_attr, selected_text, MAX_SOURCE_BYTES,
};
use crate::metrics::{
    apply_all, begun, lemma_counts_add_up, lemma_start_kept, nothing_recorded, summary_text,
    Metrics, MetricsView, Sample,
};
use crate::text::{byte_len, join_lines, joined_lines, text_views};
use rayon::iter::{IntoParallelRefIterator, ParallelIterator};
use std::time::Duration;
use vstd::prelude::*;
use vstd::string::*;

verus! {

/// Why a document gave no content.
#[derive(Debug, Clone, Copy, PartialEq, Eq, Structural)]
pub enum ProcessError {
    /// The document is longer than the parser takes, or a selector was refused.
    ParseError,
}

impl ProcessError {
    /// The error as a line of text.
    pub fn message(&self) -> (text: String)
        ensures
            text@ == "Failed to parse HTML"@,
    {
        String::from_str("Failed to parse HTML")
    }
}

/// What was extracted from one document.
#[derive(Debug)]
pub struct ProcessedContent {
    /// The text of the first `title` element, and the empty text where there is none.
    pub title: String,
    /// The targets of the links, in the order in which the document gives them, with
    /// repetitions.
    pub links: Vec<String>,
    /// The texts of the paragraphs and headings, in the order in which the document gives
    /// them, one to a line.
    pub text_content: String,
}

/// A `ProcessedContent` as plain values.
pub struct ContentView {
    pub title: Seq<char>,
    pub links: Seq<Seq<char>>,
    pub text_content: Seq<char>,
}

impl View for ProcessedContent {
    type V = ContentView;

    open spec fn view(&self) -> ContentView {
        ContentView {
            title: self.title@,
            links: text_views(self.links@),
            text_content: self.text_content@,
        }
    }
}

/// The first of `texts`, and the empty text where there is none.
pub open spec fn first_or_empty(texts: Seq<Seq<char>>) -> Seq<char> {
    if texts.len() > 0 {
        texts[0]
    } else {
        Seq::empty()
    }
}

/// The values that are there, in their order.
pub open spec fn present(values: Seq<Option<Seq<char>>>) -> Seq<Seq<char>>
    decreases values.len(),
{
    if values.len() == 0 {
        Seq::empty()
    } else {
        match values.last() {
            Some(value) => present(values.drop_last()).push(value),
            None => present(values.drop_last()),
        }
    }
}

/// The content made of what the three queries on a document gave: the first title, the
/// link targets that are there, and the blocks of text joined by line breaks.
pub open spec fn assembled(
    titles: Seq<Seq<char>>,
    targets: Seq<Option<Seq<char>>>,
    blocks: Seq<Seq<char>>,
) -> ContentView {
    ContentView {
        title: first_or_empty(titles),
        links: present(targets),
        text_content: joined_lines(blocks),
    }
}

/// Makes the content of a document from what the three queries on it gave.
pub fn assemble(titles: &Vec<String>, targets: &Vec<Option<String>>, blocks: &Vec<String>) -> (content:
    ProcessedContent)
    ensures
        content@ == assembled(text_views(titles@), option_views(targets@), text_views(blocks@)),
{
    let title = if titles.len() > 0 {
        titles[0].clone()
    } else {
        String::new()
    };
    let ghost values = option_views(targets@);
    let mut links: Vec<String> = Vec::new();
    let mut i: usize = 0;
    assert(values.take(0) =~= Seq::<Option<Seq<char>>>::empty());
    while i < targets.len()
        invariant
            i <= targets@.len(),
            values == option_views(targets@),
            text_views(links@) == present(values.take(i as int)),
        decreases targets@.len() - i,
    {
        let ghost before = text_views(links@);
        proof {
            assert(values.take(i + 1).drop_last() =~= values.take(i as int));
            assert(values.take(i + 1).last() == values[i as int]);
        }
        match &targets[i] {
            Some(target) => {
                links.push(target.clone());
                assert(text_views(links@) =~= before.push(target@));
            },
            None => {},
        }
        i += 1;
    }
    assert(values.take(targets@.len() as int) =~= values);
    let text_content = join_lines(blocks);
    ProcessedContent { title, links, text_content }
}

/// Whether content can be extracted from `html` with the three selectors: the source is
/// not longer than the parser takes, and every selector compiles.
pub open spec fn extractable(
    html: Seq<char>,
    title: Seq<char>,
    link: Seq<char>,
    text: Seq<char>,
) -> bool {
    &&& byte_len(html) <= MAX_SOURCE_BYTES
    &&& parsed_selector(title) is Some
    &&& parsed_selector(link) is Some
    &&& parsed_selector(text) is Some
}

/// What is extracted from `html` with the three selectors: the text of the first element
/// that `title` matches, the `href` of each element that `link` matches, and the texts of
/// the elements that `text` matches, one to a line.
pub open spec fn extraction(
    html: Seq<char>,
    title: Seq<char>,
    link: Seq<char>,
    text: Seq<char>,
) -> ContentView {
    let document = parsed_document(html);
    assembled(
        selected_text(document, parsed_selector(title)->Some_0),
        selected_attr(document, parsed_selector(link)->Some_0, "href"@),
        selected_text(document, parsed_selector(text)->Some_0),
    )
}

/// Extracts content from `html` with the three selectors. A document without a match
/// for `title` has the empty title; a document that is too long, or a selector that
/// does not compile, is an error.
pub fn extract_with(html: &str, title: &str, link: &str, text: &str) -> (outcome: Result<
    ProcessedContent,
    ProcessError,
>)
    ensures
        match outcome {
            Ok(content) => extractable(html@, title@, link@, text@) && content@ == extraction(
                html@,
                title@,
                link@,
                text@,
            ),
            Err(_) => !extractable(html@, title@, link@, text@),
        },
{
    if html.len() > MAX_SOURCE_BYTES {
        return Err(ProcessError::ParseError);
    }
    let document = parse_document(html);
    let title_selector = match parse_selector(title) {
        Ok(selector) => selector,
        Err(_) => {
            return Err(ProcessError::ParseError);
        },
    };
    let titles = select_text(&document, &title_selector);
    let link_selector = match parse_selector(link) {
        Ok(selector) => selector,
        Err(_) => {
            return Err(ProcessError::ParseError);
        },
    };
    let targets = select_attr(&document, &link_selector, "href");
    let text_selector = match parse_selector(text) {
        Ok(selector) => selector,
        Err(_) => {
            return Err(ProcessError::ParseError);
        },
    };
    let blocks = select_text(&document, &text_selector);
    Ok(assemble(&titles, &targets, &blocks))
}

/// Whether content can be extracted from the page `html`.
pub open spec fn page_extractable(html: Seq<char>) -> bool {
    extractable(html, "title"@, "a[href]"@, "p, h1, h2, h3, h4, h5, h6"@)
}

/// What is extracted from the page `html`: the text of its first `title` element, the
/// `href` of each `a` element that has one, and the texts of its paragraphs and headings
/// of the levels one to six, one to a line.
pub open spec fn page_extraction(html: Seq<char>) -> ContentView {
    extraction(html, "title"@, "a[href]"@, "p, h1, h2, h3, h4, h5, h6"@)
}

/// Whether `outcome` is what the page `html` gives.
pub open spec fn is_page_outcome(
    html: Seq<char>,
    outcome: Result<ProcessedContent, ProcessError>,
) -> bool {
    match outcome {
        Ok(content) => page_extractable(html) && content@ == page_extraction(html),
        Err(_) => !page_extractable(html),
    }
}

/// Extracts the content of one page.
pub fn extract_page(html: &str) -> (outcome: Result<ProcessedContent, ProcessError>)
    ensures
        is_page_outcome(html@, outcome),
{
    extract_with(html, "title", "a[href]", "p, h1, h2, h3, h4, h5, h6")
}

/// Extracts the content of one page and measures how long that took.
pub fn timed_extraction(html: &str) -> (timed: (Result<ProcessedContent, ProcessError>, Duration))
    ensures
        is_page_outcome(html@, timed.0),
{
    let start = now();
    let outcome = extract_page(html);
    let elapsed = elapsed_since(&start);
    (outcome, elapsed)
}

/// Hands the pages to the workers of `rayon`, each of which calls `timed_extraction` on
/// its pages. `rayon` collects the results of an indexed parallel iterator in the order
/// of its items, so each result stands at the place of its page.
#[verifier::external_body]
fn extract_each(pages: &Vec<String>) -> (timed: Vec<
    (Result<ProcessedContent, ProcessError>, Duration),
>)
    ensures
        timed@.len() == pages@.len(),
        forall|i: int|
            0 <= i < pages@.len() ==> is_page_outcome(pages@[i]@, (#[trigger] timed@[i]).0),
{
    pages.par_iter().map(|page| timed_extraction(page.as_str())).collect()
}

/// What the pages of a batch report to the metrics, each with its duration: all under
/// the same key, a page from which content was extracted as a success with its length in
/// bytes, any other as a failure.
pub open spec fn page_samples(pages: Seq<Seq<char>>, durations: Seq<nat>) -> Seq<Sample> {
    Seq::new(
        pages.len(),
        |i: int|
            Sample {
                key: "processing"@,
                nanos: durations[i],
                bytes: if page_extractable(pages[i]) {
                    Some(byte_len(pages[i]) as nat)
                } else {
                    None
                },
            },
    )
}

/// After a batch, a processor that had recorded nothing as the batch began holds as many
/// successes and failures together as the batch has documents, whatever the extractions
/// took.
pub proof fn lemma_every_page_counted(
    before: MetricsView,
    pages: Seq<Seq<char>>,
    durations: Seq<nat>,
)
    requires
        before.successful == 0,
        before.failed == 0,
        pages.len() <= usize::MAX,
    ensures
        apply_all(before, page_samples(pages, durations)).successful + apply_all(
            before,
            page_samples(pages, durations),
        ).failed == pages.len(),
{
    lemma_counts_add_up(before, page_samples(pages, durations));
}

/// Extracts the content of batches of documents and keeps metrics of its own.
#[derive(Debug)]
pub struct Processor {
    metrics: Metrics,
}

impl View for Processor {
    type V = MetricsView;

    closed spec fn view(&self) -> MetricsView {
        self.metrics@
    }
}

impl Processor {
    /// The processor's invariant: that of its metrics.
    pub closed spec fn wf(&self) -> bool {
        self.metrics.wf()
    }

    /// A processor that has recorded nothing.
    pub fn new() -> (processor: Processor)
        ensures
            processor.wf(),
            processor@ == nothing_recorded(),
    {
        Processor { metrics: Metrics::new() }
    }

    /// Extracts the content of one document, without recording anything.
    pub fn extract_content(&self, html: &str) -> (outcome: Result<ProcessedContent, ProcessError>)
        ensures
            is_page_outcome(html@, outcome),
    {
        extract_page(html)
    }

    /// Extracts the content of each document of the batch, in parallel. There is one
    /// outcome for each document, in the order of the documents, and a failure of one
    /// document leaves the others alone. The start of the batch is marked in the metrics,
    /// and each document is recorded once, with the time that its extraction took.
    #[verifier::loop_isolation(false)]
    pub fn process_contents(&mut self, contents: Vec<String>) -> (results: Vec<
        Result<ProcessedContent, ProcessError>,
    >)
        requires
            old(self).wf(),
        ensures
            final(self).wf(),
            results@.len() == contents@.len(),
            forall|i: int|
                0 <= i < contents@.len() ==> is_page_outcome(
                    contents@[i]@,
                    #[trigger] results@[i],
                ),
            final(self)@.start matches Some(start) && exists|durations: Seq<nat>|
                durations.len() == contents@.len() && final(self)@ == apply_all(
                    begun(old(self)@, start),
                    #[trigger] page_samples(text_views(contents@), durations),
                ),
            old(self)@.successful == 0 && old(self)@.failed == 0 ==> final(self)@.successful
                + final(self)@.failed == contents@.len(),
    {
        self.metrics.start_operation();
        let ghost started = self.metrics@;
        let ghost pages = text_views(contents@);
        let len = contents.len();
        let timed = extract_each(&contents);
        let ghost durations = Seq::new(len as nat, |i: int| duration_nanos(timed@[i].1));
        let ghost samples = page_samples(pages, durations);
        let ghost given = timed@;
        let mut left = turned(timed);
        let mut results: Vec<Result<ProcessedContent, ProcessError>> = Vec::new();
        let mut i: usize = 0;
        assert(samples.take(0) =~= Seq::<Sample>::empty());
        while i < len
            invariant
                i <= len,
                self.metrics.wf(),
                left@ == given.reverse().take(len - i),
                results@.len() == i,
                forall|j: int| 0 <= j < i ==> (#[trigger] results@[j]) == given[j].0,
                self.metrics@ == apply_all(started, samples.take(i as int)),
            decreases len - i,
        {
            let (outcome, elapsed) = left.pop().unwrap();
            proof {
                assert(outcome == given[i as int].0);
                assert(elapsed == given[i as int].1);
                assert(left@ =~= given.reverse().take(len - (i + 1)));
                assert(samples.take(i + 1).drop_last() =~= samples.take(i as int));
                assert(samples.take(i + 1).last() == samples[i as int]);
                assert(is_page_outcome(contents@[i as int]@, given[i as int].0));
            }
            match &outcome {
                Ok(_) => {
                    self.metrics.record_success(
                        String::from_str("processing"),
                        elapsed,
                        contents[i].as_str().len(),
                    );
                },
                Err(_) => {
                    self.metrics.record_failure(String::from_str("processing"), elapsed);
                },
            }
            results.push(outcome);
            i += 1;
        }
        proof {
            assert(samples.take(len as int) =~= samples);
            lemma_start_kept(started, samples);
            if started.successful == 0 && started.failed == 0 {
                lemma_every_page_counted(started, pages, durations);
            }
        }
        results
    }

    /// What has been recorded.
    pub fn metrics(&self) -> (metrics: &Metrics)
        requires
            self.wf(),
        ensures
            metrics.wf(),
            metrics@ == self@,
    {
        &self.metrics
    }

    /// The report on what has been recorded.
    pub fn get_metrics(&self) -> (summary: String)
        requires
            self.wf(),
        ensures
            summary@ == summary_text(self@),
    {
        self.metrics.get_summary()
    }
}

} // verus!
