//! Files of complete postings, a few postings each.

use vstd::prelude::*;
use vstd::string::*;
use crate::clock;
use crate::clock::{month_and_day, MAX_DAY, MIN_DAY};
use crate::job::{job_views, JobListing, JobView};
use crate::number;
use crate::number::{decimal, is_digit, zero_padded};
use crate::scan;

verus! {

broadcast use vstd::string::group_string_axioms;

/// How many postings a file holds at most.
pub const BATCH_SIZE: usize = 10;

/// An ASCII letter or digit.
pub open spec fn is_alphanumeric(c: char) -> bool {
    is_digit(c) || 'a' <= c <= 'z' || 'A' <= c <= 'Z'
}

/// The letters and digits of a text.
pub open spec fn letters_and_digits(s: Seq<char>) -> Seq<char> {
    s.filter(|c: char| is_alphanumeric(c))
}

/// The letters and digits of a text.
fn keep_letters_and_digits(s: &str) -> (r: String)
    ensures
        r@ == letters_and_digits(s@),
{
    let chars: Vec<char> = scan::to_chars(s);
    let ghost keep = |c: char| is_alphanumeric(c);
    let mut out: String = String::new();
    let mut i: usize = 0;
    while i < chars.len()
        invariant
            chars@ == s@,
            keep == (|c: char| is_alphanumeric(c)),
            i <= chars@.len(),
            out@ == s@.take(i as int).filter(keep),
        decreases chars@.len() - i,
    {
        let c: char = chars[i];
        assert(s@.take(i + 1).drop_last() =~= s@.take(i as int));
        reveal(Seq::filter);
        if number::is_ascii_digit(c) || ('a' <= c && c <= 'z') || ('A' <= c && c <= 'Z') {
            scan::push_char(&mut out, c);
        }
        i += 1;
    }
    assert(s@.take(i as int) =~= s@);
    out
}

/// The name of a run's file with a number.
pub open spec fn batch_name(stamp: Seq<char>, number: nat) -> Seq<char> {
    "jd-"@ + stamp + "-"@ + zero_padded(decimal(number), 3) + ".json"@
}

/// The writing of a run's postings: what is on its way to the next file.
pub struct JobFileWriter {
    folder: String,
    stamp: String,
    next_batch: u64,
    jobs: Vec<JobListing>,
}

/// What is on its way to a run's files.
#[verifier::ext_equal]
pub struct WriterView {
    pub folder: Seq<char>,
    pub stamp: Seq<char>,
    pub next_batch: nat,
    pub jobs: Seq<JobView>,
}

impl View for JobFileWriter {
    type V = WriterView;

    open spec fn view(&self) -> WriterView {
        WriterView {
            folder: self.folder(),
            stamp: self.stamp(),
            next_batch: self.next_batch(),
            jobs: self.jobs(),
        }
    }
}

/// The writing of the postings of a run on a day, before it has started.
pub open spec fn new_writer(day: int, generated_at: Seq<char>) -> WriterView {
    WriterView {
        folder: month_and_day(day),
        stamp: letters_and_digits(generated_at),
        next_batch: 1,
        jobs: Seq::empty(),
    }
}

/// The writing with one more posting on its way.
pub open spec fn with_posting(w: WriterView, job: JobView) -> WriterView {
    WriterView { jobs: w.jobs.push(job), ..w }
}

/// The writing behind its next file: the one behind that starts empty.
pub open spec fn behind_file(w: WriterView) -> WriterView {
    WriterView { next_batch: w.next_batch + 1, jobs: Seq::empty(), ..w }
}

/// A file of postings.
#[derive(Debug)]
pub struct BatchFile {
    pub folder: String,
    pub name: String,
    pub jobs: Vec<JobListing>,
}

impl JobFileWriter {
    /// The folder that the files stand in.
    pub closed spec fn folder(self) -> Seq<char> {
        self.folder@
    }

    /// The mark of the run in the files' names.
    pub closed spec fn stamp(self) -> Seq<char> {
        self.stamp@
    }

    /// The number of the next file.
    pub closed spec fn next_batch(self) -> nat {
        self.next_batch as nat
    }

    /// The postings for the next file.
    pub closed spec fn jobs(self) -> Seq<JobView> {
        job_views(self.jobs@)
    }

    /// The next file holds no more postings than a file may.
    pub open spec fn wf(self) -> bool {
        &&& self.jobs().len() <= BATCH_SIZE
        &&& 1 <= self.next_batch() <= u64::MAX
    }

    /// The writing of the postings of a run on a day.
    pub fn new(day: i32, generated_at: &str) -> (r: JobFileWriter)
        requires
            MIN_DAY <= day <= MAX_DAY,
        ensures
            r.wf(),
            r@ == new_writer(day as int, generated_at@),
    {
        let r: JobFileWriter = JobFileWriter {
            folder: clock::format_month_day(day),
            stamp: keep_letters_and_digits(generated_at),
            next_batch: 1,
            jobs: Vec::new(),
        };
        assert(r.jobs() =~= Seq::<JobView>::empty());
        r
    }

    /// Adds a posting. Returns whether the next file is full and to be written.
    pub fn push(&mut self, job: JobListing) -> (r: bool)
        requires
            old(self).wf(),
            old(self).jobs().len() < BATCH_SIZE,
        ensures
            final(self).wf(),
            final(self)@ == with_posting(old(self)@, job@),
            r == (final(self).jobs().len() == BATCH_SIZE),
    {
        let ghost before = self.jobs@;
        let ghost said = job@;
        self.jobs.push(job);
        assert(job_views(self.jobs@) =~= job_views(before).push(said));
        self.jobs.len() >= BATCH_SIZE
    }

    /// The next file, if there is anything to write.
    pub fn pending(&self) -> (r: Option<BatchFile>)
        ensures
            match r {
                Some(file) => {
                    &&& self.jobs().len() > 0
                    &&& file.folder@ == self.folder()
                    &&& file.name@ == batch_name(self.stamp(), self.next_batch())
                    &&& job_views(file.jobs@) == self.jobs()
                },
                None => self.jobs().len() == 0,
            },
    {
        if self.jobs.len() == 0 {
            return None;
        }
        let digits: String = number::zero_pad(
            number::to_decimal(self.next_batch).as_str(),
            3,
        );
        let mut name: String = scan::concat3("jd-", self.stamp.as_str(), "-");
        name.append(digits.as_str());
        name.append(".json");
        Some(
            BatchFile { folder: self.folder.clone(), name, jobs: copy_jobs(&self.jobs) },
        )
    }

    /// The next file was written: the one behind it starts empty.
    pub fn flushed(&mut self)
        requires
            old(self).wf(),
            old(self).next_batch() < u64::MAX,
        ensures
            final(self).wf(),
            final(self)@ == behind_file(old(self)@),
    {
        self.jobs = Vec::new();
        self.next_batch = self.next_batch + 1;
        assert(self.jobs() =~= Seq::<JobView>::empty());
    }
}

/// A copy of a list of postings.
pub fn copy_jobs(jobs: &Vec<JobListing>) -> (r: Vec<JobListing>)
    ensures
        job_views(r@) == job_views(jobs@),
{
    let ghost all = job_views(jobs@);
    let mut out: Vec<JobListing> = Vec::new();
    let mut i: usize = 0;
    while i < jobs.len()
        invariant
            all == job_views(jobs@),
            i <= jobs@.len(),
            job_views(out@) == all.take(i as int),
        decreases jobs@.len() - i,
    {
        let ghost earlier = out@;
        let copy: JobListing = jobs[i].clone();
        let ghost said = copy@;
        out.push(copy);
        assert(job_views(out@) =~= job_views(earlier).push(said));
        assert(all.take(i + 1) =~= all.take(i as int).push(said));
        i += 1;
    }
    assert(all.take(i as int) =~= all);
    out
}

// ---------------------------------------------------------------------------
// Many postings
// ---------------------------------------------------------------------------

/// The writing, with the files written so far: their names and their postings.
#[verifier::ext_equal]
pub struct Written {
    pub writer: WriterView,
    pub files: Seq<(Seq<char>, Seq<JobView>)>,
}

/// What one more posting leads to, where each file is written once it is full.
pub open spec fn after_posting(w: Written, job: JobView) -> Written {
    let more = with_posting(w.writer, job);
    if more.jobs.len() == BATCH_SIZE {
        Written {
            writer: behind_file(more),
            files: w.files.push((batch_name(more.stamp, more.next_batch), more.jobs)),
        }
    } else {
        Written { writer: more, ..w }
    }
}

/// What some postings lead to, one after the other.
pub open spec fn after_postings(w: Written, jobs: Seq<JobView>) -> Written
    decreases jobs.len(),
{
    if jobs.len() == 0 {
        w
    } else {
        after_posting(after_postings(w, jobs.drop_last()), jobs.last())
    }
}

/// The postings of some files, in the files' order.
pub open spec fn file_contents(files: Seq<(Seq<char>, Seq<JobView>)>) -> Seq<JobView>
    decreases files.len(),
{
    if files.len() == 0 {
        Seq::empty()
    } else {
        file_contents(files.drop_last()) + files.last().1
    }
}

/// Of the postings of a run, each ten make a file, numbered from one on. The files
/// in order, and behind them what is on its way, hold the postings as they came:
/// none is lost, doubled or moved.
pub proof fn law_every_posting_is_written_once(
    day: int,
    generated_at: Seq<char>,
    jobs: Seq<JobView>,
)
    ensures
        ({
            let start = Written { writer: new_writer(day, generated_at), files: Seq::empty() };
            let w = after_postings(start, jobs);
            &&& w.files.len() == jobs.len() / 10
            &&& forall|k: int| 0 <= k < w.files.len() ==> (#[trigger] w.files[k]).1.len() == 10
            &&& forall|k: int|
                0 <= k < w.files.len() ==> (#[trigger] w.files[k]).0 == batch_name(
                    letters_and_digits(generated_at),
                    (k + 1) as nat,
                )
            &&& file_contents(w.files) + w.writer.jobs == jobs
            &&& w.writer.jobs.len() == jobs.len() % 10
            &&& w.writer.next_batch == jobs.len() / 10 + 1
            &&& w.writer.folder == month_and_day(day)
            &&& w.writer.stamp == letters_and_digits(generated_at)
        }),
    decreases jobs.len(),
{
    let start = Written { writer: new_writer(day, generated_at), files: Seq::empty() };
    if jobs.len() == 0 {
        assert(file_contents(start.files) + start.writer.jobs =~= jobs);
    } else {
        let fewer = jobs.drop_last();
        law_every_posting_is_written_once(day, generated_at, fewer);
        let before = after_postings(start, fewer);
        let after = after_postings(start, jobs);
        let more = with_posting(before.writer, jobs.last());
        assert(file_contents(before.files) + more.jobs =~= (file_contents(before.files)
            + before.writer.jobs).push(jobs.last()));
        assert(fewer.push(jobs.last()) =~= jobs);
        if more.jobs.len() == 10 {
            assert(after.files.drop_last() =~= before.files);
            assert(file_contents(after.files) + after.writer.jobs =~= jobs);
            assert forall|k: int| 0 <= k < after.files.len() implies (
            #[trigger] after.files[k]).1.len() == 10 by {
                if k < before.files.len() {
                    assert(after.files[k] == before.files[k]);
                }
            }
            assert forall|k: int| 0 <= k < after.files.len() implies (#[trigger] after.files[k]).0
                == batch_name(letters_and_digits(generated_at), (k + 1) as nat) by {
                if k < before.files.len() {
                    assert(after.files[k] == before.files[k]);
                }
            }
        }
    }
}

/// Letters and digits of ASCII are kept, in order, and nothing else is.
pub proof fn law_letters_and_digits_are_kept(s: Seq<char>, c: char)
    ensures
        letters_and_digits(Seq::empty()).len() == 0,
        'a' <= c <= 'z' || 'A' <= c <= 'Z' || '0' <= c <= '9' ==> letters_and_digits(s.push(c))
            == letters_and_digits(s).push(c),
        !('a' <= c <= 'z' || 'A' <= c <= 'Z' || '0' <= c <= '9') ==> letters_and_digits(s.push(c))
            == letters_and_digits(s),
{
    reveal(Seq::filter);
    assert(s.push(c).drop_last() =~= s);
}

/// A file is named by its run and its number, in three digits at least.
pub proof fn law_files_are_named_by_run_and_number(stamp: Seq<char>, number: nat)
    ensures
        batch_name(stamp, number) == "jd-"@ + stamp + "-"@ + zero_padded(decimal(number), 3)
            + ".json"@,
        zero_padded(decimal(number), 3).len() >= 3,
{
}

/// A run's writing starts with an empty first file in the day's folder, and its files
/// are marked with the letters and digits of when it was made.
pub proof fn law_a_runs_writing_starts_empty(day: int, generated_at: Seq<char>, job: JobView)
    ensures
        ({
            let w = new_writer(day, generated_at);
            &&& w.folder == month_and_day(day)
            &&& w.stamp == letters_and_digits(generated_at)
            &&& w.next_batch == 1 && w.jobs.len() == 0
            &&& with_posting(w, job).jobs == seq![job]
            &&& with_posting(w, job).next_batch == 1
            &&& with_posting(w, job).folder == w.folder && with_posting(w, job).stamp == w.stamp
        }),
        forall|w: WriterView|
            {
                let b = #[trigger] behind_file(w);
                &&& b.next_batch == w.next_batch + 1
                &&& b.jobs.len() == 0
                &&& b.folder == w.folder && b.stamp == w.stamp
            },
        forall|w: WriterView|
            {
                let b = #[trigger] with_posting(w, job);
                &&& b.jobs == w.jobs.push(job)
                &&& b.next_batch == w.next_batch
                &&& b.folder == w.folder && b.stamp == w.stamp
            },
{
    assert(Seq::<JobView>::empty().push(job) =~= seq![job]);
}

} // verus!
