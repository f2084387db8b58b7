//! The sources of job postings.

use vstd::prelude::*;
use crate::job::{job_views, JobListing, JobView};
use crate::source::acquisition::Acquisition;
use crate::text::views;

pub mod gmail;
pub mod alert;
pub mod header;
pub mod page;
pub mod acquisition;
pub mod linkedin;

verus! {

/// What a source knows of at one time.
#[derive(Debug)]
pub struct SourceSnapshot {
    pub source: String,
    pub jobs: Vec<JobListing>,
    pub processed_message_ids: Vec<String>,
    pub allow_deletions: bool,
}

/// What a snapshot says.
#[verifier::ext_equal]
pub struct SnapshotView {
    pub source: Seq<char>,
    pub jobs: Seq<JobView>,
    pub processed_message_ids: Seq<Seq<char>>,
    pub allow_deletions: bool,
}

impl View for SourceSnapshot {
    type V = SnapshotView;

    open spec fn view(&self) -> SnapshotView {
        SnapshotView {
            source: self.source@,
            jobs: job_views(self.jobs@),
            processed_message_ids: views(self.processed_message_ids@),
            allow_deletions: self.allow_deletions,
        }
    }
}

/// A source of postings that is read from mail messages, each given by its
/// identity and its HTML text.
pub trait JobSource: Send + Sync {
    /// The name under which the source's postings are kept.
    fn source_name(&self) -> &'static str;

    /// Starts reading the source, with nothing known of its postings.
    fn acquire(&self, messages: &Vec<(String, String)>) -> Acquisition;
}

/// A snapshot says what each of its fields holds.
pub proof fn law_a_snapshot_says_what_it_holds(x: SourceSnapshot)
    ensures
        x@.source == x.source@,
        x@.jobs == job_views(x.jobs@),
        x@.processed_message_ids == views(x.processed_message_ids@),
        x@.allow_deletions == x.allow_deletions,
{
}

} // verus!
