//! Job postings and the records of what changed about them.

use vstd::prelude::*;
use vstd::string::*;
use crate::text::{opt_view, views};

verus! {

broadcast use vstd::string::group_string_axioms;

/// A copy of an optional string.
pub fn copy_option(s: &Option<String>) -> (r: Option<String>)
    ensures
        opt_view(r) == opt_view(*s),
{
    match s {
        Some(t) => Some(t.clone()),
        None => None,
    }
}

/// A copy of a list of strings.
pub fn copy_strings(s: &Vec<String>) -> (r: Vec<String>)
    ensures
        views(r@) == views(s@),
{
    let mut out: Vec<String> = Vec::new();
    let mut i: usize = 0;
    while i < s.len()
        invariant
            i <= s@.len(),
            views(out@) == views(s@).take(i as int),
        decreases s@.len() - i,
    {
        out.push(s[i].clone());
        assert(views(s@).take(i + 1) =~= views(s@).take(i as int).push(s@[i as int]@));
        assert(views(out@) =~= views(s@).take(i + 1));
        i += 1;
    }
    assert(views(s@).take(i as int) =~= views(s@));
    out
}

/// A job posting, in the form that all sources share.
#[derive(Debug, PartialEq)]
pub struct JobListing {
    pub source: String,
    pub external_id: String,
    pub title: String,
    pub company: String,
    pub location: Option<String>,
    pub salary: Option<String>,
    pub description: Option<String>,
    pub url: String,
    pub published_at: Option<String>,
    pub platform_updated_at: Option<String>,
    pub fetch_state: String,
    pub first_seen_at: Option<String>,
    pub last_seen_at: Option<String>,
    pub seen_count: i64,
}

/// What a job posting says.
#[verifier::ext_equal]
pub struct JobView {
    pub source: Seq<char>,
    pub external_id: Seq<char>,
    pub title: Seq<char>,
    pub company: Seq<char>,
    pub location: Option<Seq<char>>,
    pub salary: Option<Seq<char>>,
    pub description: Option<Seq<char>>,
    pub url: Seq<char>,
    pub published_at: Option<Seq<char>>,
    pub platform_updated_at: Option<Seq<char>>,
    pub fetch_state: Seq<char>,
    pub first_seen_at: Option<Seq<char>>,
    pub last_seen_at: Option<Seq<char>>,
    pub seen_count: int,
}

impl View for JobListing {
    type V = JobView;

    open spec fn view(&self) -> JobView {
        JobView {
            source: self.source@,
            external_id: self.external_id@,
            title: self.title@,
            company: self.company@,
            location: opt_view(self.location),
            salary: opt_view(self.salary),
            description: opt_view(self.description),
            url: self.url@,
            published_at: opt_view(self.published_at),
            platform_updated_at: opt_view(self.platform_updated_at),
            fetch_state: self.fetch_state@,
            first_seen_at: opt_view(self.first_seen_at),
            last_seen_at: opt_view(self.last_seen_at),
            seen_count: self.seen_count as int,
        }
    }
}

impl Clone for JobListing {
    fn clone(&self) -> (r: Self)
        ensures
            r@ == self@,
    {
        JobListing {
            source: self.source.clone(),
            external_id: self.external_id.clone(),
            title: self.title.clone(),
            company: self.company.clone(),
            location: copy_option(&self.location),
            salary: copy_option(&self.salary),
            description: copy_option(&self.description),
            url: self.url.clone(),
            published_at: copy_option(&self.published_at),
            platform_updated_at: copy_option(&self.platform_updated_at),
            fetch_state: self.fetch_state.clone(),
            first_seen_at: copy_option(&self.first_seen_at),
            last_seen_at: copy_option(&self.last_seen_at),
            seen_count: self.seen_count,
        }
    }
}

/// What each posting of a list says.
pub open spec fn job_views(jobs: Seq<JobListing>) -> Seq<JobView> {
    jobs.map_values(|j: JobListing| j@)
}

/// What an optional posting says.
pub open spec fn opt_job_view(job: Option<&JobListing>) -> Option<JobView> {
    match job {
        Some(j) => Some(j@),
        None => None,
    }
}

/// A posting says what each of its fields holds.
pub proof fn law_a_posting_says_what_it_holds(x: JobListing)
    ensures
        x@.source == x.source@,
        x@.external_id == x.external_id@,
        x@.title == x.title@,
        x@.company == x.company@,
        x@.location == opt_view(x.location),
        x@.salary == opt_view(x.salary),
        x@.description == opt_view(x.description),
        x@.url == x.url@,
        x@.published_at == opt_view(x.published_at),
        x@.platform_updated_at == opt_view(x.platform_updated_at),
        x@.fetch_state == x.fetch_state@,
        x@.first_seen_at == opt_view(x.first_seen_at),
        x@.last_seen_at == opt_view(x.last_seen_at),
        x@.seen_count == x.seen_count as int,
{
}

/// What a list of postings says is what each of them says, in order.
pub proof fn law_postings_say_what_each_says(jobs: Seq<JobListing>, i: int)
    ensures
        job_views(jobs).len() == jobs.len(),
        0 <= i < jobs.len() ==> job_views(jobs)[i] == jobs[i]@,
{
}

} // verus!
