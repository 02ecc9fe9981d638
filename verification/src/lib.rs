//! A bounded fetch pipeline with metrics, and the extraction of title, links and text
//! from the fetched documents.
//!
//! The decisions of the pipeline are verified: which request may start while at most a
//! fixed number are in flight, what each completed request contributes to the metrics,
//! and what is extracted from a parsed document. Network and file I/O are left to the
//! caller, who reports what happened and is told what to do next.

pub mod clock;
pub mod downloader;
pub mod fetcher;
pub mod list;
pub mod markup;
pub mod metrics;
pub mod processor;
pub mod text;
