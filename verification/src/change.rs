//! What changed between two states of a job posting, and how that is recorded.

use vstd::prelude::*;
use vstd::string::*;
use crate::job::{copy_option, copy_strings, opt_job_view, JobListing, JobView};
use crate::scan;
use crate::text::{is_white, opt_str_view, opt_view, squeeze, views, word_len, words};

verus! {

broadcast use vstd::string::group_string_axioms;

// ---------------------------------------------------------------------------
// Comparison
// ---------------------------------------------------------------------------

/// An optional text with its white space squeezed; no text counts as empty.
pub open spec fn normalized(value: Option<Seq<char>>) -> Seq<char> {
    match value {
        Some(s) => squeeze(s),
        None => Seq::empty(),
    }
}

/// `name` alone if `differs`, else nothing.
pub open spec fn named_if(differs: bool, name: Seq<char>) -> Seq<Seq<char>> {
    if differs {
        seq![name]
    } else {
        Seq::empty()
    }
}

/// The names of the fields in which two states of a posting differ. Location,
/// salary and description are compared with their white space squeezed.
pub open spec fn differing_fields(earlier: JobView, new: JobView) -> Seq<Seq<char>> {
    named_if(earlier.title != new.title, "title"@)
    + named_if(earlier.company != new.company, "company"@)
    + named_if(normalized(earlier.location) != normalized(new.location), "location"@)
    + named_if(normalized(earlier.salary) != normalized(new.salary), "salary"@)
    + named_if(normalized(earlier.description) != normalized(new.description), "description"@)
    + named_if(earlier.url != new.url, "url"@)
    + named_if(earlier.published_at != new.published_at, "published_at"@)
    + named_if(earlier.platform_updated_at != new.platform_updated_at, "platform_updated_at"@)
    + named_if(earlier.fetch_state != new.fetch_state, "fetch_state"@)
}

/// An optional text with its white space squeezed.
pub fn normalize_text(value: Option<&str>) -> (r: String)
    ensures
        r@ == normalized(opt_str_view(value)),
{
    match value {
        Some(s) => scan::squeeze(s),
        None => String::new(),
    }
}

/// The slice of an optional string.
pub fn as_slice(s: &Option<String>) -> (r: Option<&str>)
    ensures
        opt_str_view(r) == opt_view(*s),
{
    match s {
        Some(t) => Some(t.as_str()),
        None => None,
    }
}

/// Whether two optional strings are the same.
pub fn same_option(a: &Option<String>, b: &Option<String>) -> (r: bool)
    ensures
        r == (opt_view(*a) == opt_view(*b)),
{
    match (a, b) {
        (Some(x), Some(y)) => scan::same(x.as_str(), y.as_str()),
        (None, None) => true,
        _ => false,
    }
}

/// Whether two optional texts differ once their white space is squeezed.
fn texts_differ(a: &Option<String>, b: &Option<String>) -> (r: bool)
    ensures
        r == (normalized(opt_view(*a)) != normalized(opt_view(*b))),
{
    !scan::same(normalize_text(as_slice(a)).as_str(), normalize_text(as_slice(b)).as_str())
}

/// Appends `name` if `differs`.
fn push_if(fields: &mut Vec<String>, differs: bool, name: &str)
    ensures
        views(final(fields)@) == views(old(fields)@) + named_if(differs, name@),
{
    if differs {
        fields.push(name.to_owned());
    }
    assert(views(fields@) =~= views(old(fields)@) + named_if(differs, name@));
}

/// The names of the fields in which two states of a posting differ.
pub fn changed_fields(earlier: &JobListing, new: &JobListing) -> (r: Vec<String>)
    ensures
        views(r@) == differing_fields(earlier@, new@),
{
    let mut fields: Vec<String> = Vec::new();
    assert(views(fields@) =~= Seq::<Seq<char>>::empty());
    push_if(&mut fields, !scan::same(earlier.title.as_str(), new.title.as_str()), "title");
    push_if(&mut fields, !scan::same(earlier.company.as_str(), new.company.as_str()), "company");
    push_if(&mut fields, texts_differ(&earlier.location, &new.location), "location");
    push_if(&mut fields, texts_differ(&earlier.salary, &new.salary), "salary");
    push_if(&mut fields, texts_differ(&earlier.description, &new.description), "description");
    push_if(&mut fields, !scan::same(earlier.url.as_str(), new.url.as_str()), "url");
    push_if(&mut fields, !same_option(&earlier.published_at, &new.published_at), "published_at");
    push_if(
        &mut fields,
        !same_option(&earlier.platform_updated_at, &new.platform_updated_at),
        "platform_updated_at",
    );
    push_if(
        &mut fields,
        !scan::same(earlier.fetch_state.as_str(), new.fetch_state.as_str()),
        "fetch_state",
    );
    assert(views(fields@) =~= differing_fields(earlier@, new@));
    fields
}

/// Two states of a posting differ in more than the description.
pub open spec fn listing_differs(earlier: JobView, new: JobView) -> bool {
    exists|i: int|
        0 <= i < differing_fields(earlier, new).len() && differing_fields(earlier, new)[i]
            != "description"@
}

/// Whether a list holds a text other than `name`.
fn holds_other_than(fields: &Vec<String>, name: &str) -> (r: bool)
    ensures
        r == exists|i: int| 0 <= i < views(fields@).len() && views(fields@)[i] != name@,
{
    let mut i: usize = 0;
    while i < fields.len()
        invariant
            i <= fields@.len(),
            forall|k: int| 0 <= k < i ==> views(fields@)[k] == name@,
        decreases fields@.len() - i,
    {
        assert(views(fields@)[i as int] == fields@[i as int]@);
        if !scan::same(fields[i].as_str(), name) {
            return true;
        }
        i += 1;
    }
    false
}

/// Whether two states of a posting differ in more than the description.
pub fn listing_fields_changed(earlier: &JobListing, new: &JobListing) -> (r: bool)
    ensures
        r == listing_differs(earlier@, new@),
{
    let fields: Vec<String> = changed_fields(earlier, new);
    holds_other_than(&fields, "description")
}

// ---------------------------------------------------------------------------
// Tracking
// ---------------------------------------------------------------------------

/// A posting that carries the tracking of another.
pub open spec fn with_tracking_of(job: JobView, persisted: JobView) -> JobView {
    JobView {
        first_seen_at: persisted.first_seen_at,
        last_seen_at: persisted.last_seen_at,
        seen_count: persisted.seen_count,
        ..job
    }
}

/// A posting as a run at `run_at` sees it, given its stored state: it was first
/// seen when the stored state says so, else now; it is seen once more.
pub open spec fn seen_in_run(job: JobView, earlier: Option<JobView>, run_at: Seq<char>) -> JobView {
    JobView {
        first_seen_at: match earlier {
            Some(o) => match o.first_seen_at {
                Some(t) => Some(t),
                None => Some(run_at),
            },
            None => Some(run_at),
        },
        last_seen_at: Some(run_at),
        seen_count: match earlier {
            Some(o) => if o.seen_count > 1 {
                o.seen_count + 1
            } else {
                2
            },
            None => 1,
        },
        ..job
    }
}

/// Gives a posting the tracking of its stored state.
pub fn copy_tracking(target: &mut JobListing, persisted: &JobListing)
    ensures
        final(target)@ == with_tracking_of(old(target)@, persisted@),
{
    target.first_seen_at = copy_option(&persisted.first_seen_at);
    target.last_seen_at = copy_option(&persisted.last_seen_at);
    target.seen_count = persisted.seen_count;
}

/// Records that the run at `run_at` has seen a posting.
pub fn apply_run_tracking(job: &mut JobListing, earlier: Option<&JobListing>, run_at: &str)
    requires
        earlier is Some ==> earlier->0.seen_count < i64::MAX,
    ensures
        final(job)@ == seen_in_run(old(job)@, opt_job_view(earlier), run_at@),
{
    job.last_seen_at = Some(run_at.to_owned());
    match earlier {
        Some(known) => {
            job.first_seen_at = match &known.first_seen_at {
                Some(t) => Some(t.clone()),
                None => Some(run_at.to_owned()),
            };
            job.seen_count = if known.seen_count > 1 {
                known.seen_count + 1
            } else {
                2
            };
        },
        None => {
            job.first_seen_at = Some(run_at.to_owned());
            job.seen_count = 1;
        },
    }
}

// ---------------------------------------------------------------------------
// Records
// ---------------------------------------------------------------------------

/// The record of one change to one posting.
#[derive(Debug, PartialEq)]
pub struct ChangeRecord {
    pub change_type: String,
    pub source: String,
    pub external_id: String,
    pub title: String,
    pub company: String,
    pub location: Option<String>,
    pub salary: Option<String>,
    pub published_at: Option<String>,
    pub url: String,
    pub fetch_state: String,
    pub changed_fields: Vec<String>,
    pub description: Option<String>,
    pub deleted_at: Option<String>,
    pub first_seen_at: Option<String>,
    pub last_seen_at: Option<String>,
    pub seen_count: i64,
}

/// What the record of a change says.
#[verifier::ext_equal]
pub struct RecordView {
    pub change_type: Seq<char>,
    pub source: Seq<char>,
    pub external_id: Seq<char>,
    pub title: Seq<char>,
    pub company: Seq<char>,
    pub location: Option<Seq<char>>,
    pub salary: Option<Seq<char>>,
    pub published_at: Option<Seq<char>>,
    pub url: Seq<char>,
    pub fetch_state: Seq<char>,
    pub changed_fields: Seq<Seq<char>>,
    pub description: Option<Seq<char>>,
    pub deleted_at: Option<Seq<char>>,
    pub first_seen_at: Option<Seq<char>>,
    pub last_seen_at: Option<Seq<char>>,
    pub seen_count: int,
}

impl View for ChangeRecord {
    type V = RecordView;

    open spec fn view(&self) -> RecordView {
        RecordView {
            change_type: self.change_type@,
            source: self.source@,
            external_id: self.external_id@,
            title: self.title@,
            company: self.company@,
            location: opt_view(self.location),
            salary: opt_view(self.salary),
            published_at: opt_view(self.published_at),
            url: self.url@,
            fetch_state: self.fetch_state@,
            changed_fields: views(self.changed_fields@),
            description: opt_view(self.description),
            deleted_at: opt_view(self.deleted_at),
            first_seen_at: opt_view(self.first_seen_at),
            last_seen_at: opt_view(self.last_seen_at),
            seen_count: self.seen_count as int,
        }
    }
}

impl Clone for ChangeRecord {
    fn clone(&self) -> (r: Self)
        ensures
            r@ == self@,
    {
        ChangeRecord {
            change_type: self.change_type.clone(),
            source: self.source.clone(),
            external_id: self.external_id.clone(),
            title: self.title.clone(),
            company: self.company.clone(),
            location: copy_option(&self.location),
            salary: copy_option(&self.salary),
            published_at: copy_option(&self.published_at),
            url: self.url.clone(),
            fetch_state: self.fetch_state.clone(),
            changed_fields: copy_strings(&self.changed_fields),
            description: copy_option(&self.description),
            deleted_at: copy_option(&self.deleted_at),
            first_seen_at: copy_option(&self.first_seen_at),
            last_seen_at: copy_option(&self.last_seen_at),
            seen_count: self.seen_count,
        }
    }
}

/// What each record of a list says.
pub open spec fn record_views(records: Seq<ChangeRecord>) -> Seq<RecordView> {
    records.map_values(|r: ChangeRecord| r@)
}

/// The record of a change of kind `kind` to the posting `job`.
pub open spec fn record_of(
    kind: Seq<char>,
    job: JobView,
    fields: Seq<Seq<char>>,
    deleted_at: Option<Seq<char>>,
) -> RecordView {
    RecordView {
        change_type: kind,
        source: job.source,
        external_id: job.external_id,
        title: job.title,
        company: job.company,
        location: job.location,
        salary: job.salary,
        published_at: job.published_at,
        url: job.url,
        fetch_state: job.fetch_state,
        changed_fields: fields,
        description: job.description,
        deleted_at,
        first_seen_at: job.first_seen_at,
        last_seen_at: job.last_seen_at,
        seen_count: job.seen_count,
    }
}

/// The record of a change of kind `kind` to the posting `job`.
pub fn change_record(
    kind: &str,
    job: &JobListing,
    fields: Vec<String>,
    deleted_at: Option<String>,
) -> (r: ChangeRecord)
    ensures
        r@ == record_of(kind@, job@, views(fields@), opt_view(deleted_at)),
{
    ChangeRecord {
        change_type: kind.to_owned(),
        source: job.source.clone(),
        external_id: job.external_id.clone(),
        title: job.title.clone(),
        company: job.company.clone(),
        location: copy_option(&job.location),
        salary: copy_option(&job.salary),
        published_at: copy_option(&job.published_at),
        url: job.url.clone(),
        fetch_state: job.fetch_state.clone(),
        changed_fields: fields,
        description: copy_option(&job.description),
        deleted_at,
        first_seen_at: copy_option(&job.first_seen_at),
        last_seen_at: copy_option(&job.last_seen_at),
        seen_count: job.seen_count,
    }
}

/// A copy of a list of records.
pub fn copy_records(records: &Vec<ChangeRecord>) -> (r: Vec<ChangeRecord>)
    ensures
        record_views(r@) == record_views(records@),
{
    let mut out: Vec<ChangeRecord> = Vec::new();
    let mut i: usize = 0;
    while i < records.len()
        invariant
            i <= records@.len(),
            record_views(out@) == record_views(records@).take(i as int),
        decreases records@.len() - i,
    {
        let copied: ChangeRecord = records[i].clone();
        assert(copied@ == records@[i as int]@);
        let ghost earlier = out@;
        out.push(copied);
        assert(record_views(out@) =~= record_views(earlier).push(copied@));
        assert(record_views(out@) =~= record_views(records@).take(i + 1));
        i += 1;
    }
    assert(record_views(records@).take(i as int) =~= record_views(records@));
    out
}

// ---------------------------------------------------------------------------
// Laws
// ---------------------------------------------------------------------------

/// A posting does not differ from itself.
pub proof fn law_same_posting_is_unchanged(job: JobView)
    ensures
        differing_fields(job, job) == Seq::<Seq<char>>::empty(),
{
    assert(differing_fields(job, job) =~= Seq::<Seq<char>>::empty());
}

/// Two states of a posting are unchanged exactly if they agree in every compared
/// field; identity and tracking are not compared.
pub proof fn law_unchanged_means_equal_fields(earlier: JobView, new: JobView)
    ensures
        differing_fields(earlier, new).len() == 0 <==> {
            &&& earlier.title == new.title
            &&& earlier.company == new.company
            &&& normalized(earlier.location) == normalized(new.location)
            &&& normalized(earlier.salary) == normalized(new.salary)
            &&& normalized(earlier.description) == normalized(new.description)
            &&& earlier.url == new.url
            &&& earlier.published_at == new.published_at
            &&& earlier.platform_updated_at == new.platform_updated_at
            &&& earlier.fetch_state == new.fetch_state
        },
{
}

/// The comparison does not look at identity or tracking.
pub proof fn law_tracking_is_not_a_change(earlier: JobView, new: JobView, run_at: Seq<char>)
    ensures
        differing_fields(earlier, seen_in_run(new, Some(earlier), run_at)) == differing_fields(earlier, new),
        differing_fields(earlier, with_tracking_of(new, earlier)) == differing_fields(earlier, new),
{
}

/// The same fields differ in both directions.
pub proof fn law_difference_is_symmetric(earlier: JobView, new: JobView)
    ensures
        differing_fields(earlier, new) == differing_fields(new, earlier),
{
}

/// A posting keeps the time at which it was first seen, and each run counts one
/// more sighting.
pub proof fn law_runs_are_counted(
    job: JobView,
    later: JobView,
    first_run: Seq<char>,
    second_run: Seq<char>,
)
    ensures
        ({
            let once = seen_in_run(job, None, first_run);
            let twice = seen_in_run(later, Some(once), second_run);
            &&& once.first_seen_at == Some(first_run)
            &&& once.last_seen_at == Some(first_run)
            &&& once.seen_count == 1
            &&& twice.first_seen_at == Some(first_run)
            &&& twice.last_seen_at == Some(second_run)
            &&& twice.seen_count == 2
        }),
{
}

/// Every character is white space.
pub open spec fn all_white(s: Seq<char>) -> bool {
    forall|i: int| 0 <= i < s.len() ==> is_white(#[trigger] s[i])
}

/// What starts with white space does not lengthen the word before it.
pub proof fn lemma_word_ends(a: Seq<char>, x: Seq<char>)
    requires
        x.len() > 0 ==> is_white(x[0]),
    ensures
        word_len(a + x) == word_len(a),
        word_len(a) <= a.len(),
    decreases a.len(),
{
    if a.len() == 0 {
        assert(a + x =~= x);
    } else {
        assert((a + x)[0] == a[0]);
        assert((a + x).skip(1) =~= a.skip(1) + x);
        lemma_word_ends(a.skip(1), x);
    }
}

/// The words of a text and of what starts with white space behind it.
pub proof fn lemma_words_join(a: Seq<char>, x: Seq<char>)
    requires
        x.len() > 0 ==> is_white(x[0]),
    ensures
        words(a + x) == words(a) + words(x),
    decreases a.len(),
{
    if a.len() == 0 {
        assert(a + x =~= x);
        assert(words(a) + words(x) =~= words(x));
    } else {
        assert((a + x)[0] == a[0]);
        if is_white(a[0]) {
            assert((a + x).skip(1) =~= a.skip(1) + x);
            lemma_words_join(a.skip(1), x);
        } else {
            lemma_word_ends(a, x);
            lemma_word_ends(a.skip(1), Seq::empty());
            let n = word_len(a) as int;
            assert(n > 0);
            assert((a + x).take(n) =~= a.take(n));
            assert((a + x).skip(n) =~= a.skip(n) + x);
            lemma_words_join(a.skip(n), x);
            assert(words(a + x) =~= words(a) + words(x));
        }
    }
}

/// White space has no words.
pub proof fn lemma_white_has_no_words(w: Seq<char>, b: Seq<char>)
    requires
        all_white(w),
    ensures
        words(w + b) == words(b),
    decreases w.len(),
{
    if w.len() == 0 {
        assert(w + b =~= b);
    } else {
        assert((w + b)[0] == w[0]);
        assert((w + b).skip(1) =~= w.skip(1) + b);
        assert(all_white(w.skip(1))) by {
            assert forall|i: int| 0 <= i < w.skip(1).len() implies is_white(
                #[trigger] w.skip(1)[i],
            ) by {
                assert(w.skip(1)[i] == w[i + 1]);
            }
        }
        lemma_white_has_no_words(w.skip(1), b);
    }
}

/// Which white space stands between two parts of a text makes no difference, be it
/// one space, several, or a line end of any kind, and white space at the ends makes
/// none either.
pub proof fn law_white_space_is_insignificant(
    a: Seq<char>,
    b: Seq<char>,
    one: Seq<char>,
    other: Seq<char>,
)
    requires
        all_white(one),
        all_white(other),
        one.len() > 0,
        other.len() > 0,
    ensures
        normalized(Some(a + one + b)) == normalized(Some(a + other + b)),
        normalized(Some(one + a)) == normalized(Some(a)),
        normalized(Some(a + one)) == normalized(Some(a)),
{
    assert(a + one + b =~= a + (one + b));
    assert(a + other + b =~= a + (other + b));
    lemma_words_join(a, one + b);
    lemma_words_join(a, other + b);
    lemma_white_has_no_words(one, b);
    lemma_white_has_no_words(other, b);
    lemma_white_has_no_words(one, a);
    lemma_words_join(a, one);
    assert(one + Seq::<char>::empty() =~= one);
    lemma_white_has_no_words(one, Seq::empty());
    assert(words(a) + words(one) =~= words(a));
}

/// Each field in which two states of a posting differ is named, and no other is.
pub proof fn law_each_difference_is_named(earlier: JobView, new: JobView)
    ensures
        ({
            let fields = differing_fields(earlier, new);
            &&& fields.contains("title"@) <==> earlier.title != new.title
            &&& fields.contains("company"@) <==> earlier.company != new.company
            &&& fields.contains("location"@) <==> normalized(earlier.location) != normalized(
                new.location,
            )
            &&& fields.contains("salary"@) <==> normalized(earlier.salary) != normalized(new.salary)
            &&& fields.contains("description"@) <==> normalized(earlier.description) != normalized(
                new.description,
            )
            &&& fields.contains("url"@) <==> earlier.url != new.url
            &&& fields.contains("published_at"@) <==> earlier.published_at != new.published_at
            &&& fields.contains("platform_updated_at"@) <==> earlier.platform_updated_at
                != new.platform_updated_at
            &&& fields.contains("fetch_state"@) <==> earlier.fetch_state != new.fetch_state
            &&& fields.no_duplicates()
        }),
{
    reveal_strlit("title");
    reveal_strlit("company");
    reveal_strlit("location");
    reveal_strlit("salary");
    reveal_strlit("description");
    reveal_strlit("url");
    reveal_strlit("published_at");
    reveal_strlit("platform_updated_at");
    reveal_strlit("fetch_state");
    assert("description"@[0] != "fetch_state"@[0]);
    assert("title"@.len() == 5 && "company"@.len() == 7 && "location"@.len() == 8);
    assert("salary"@.len() == 6 && "description"@.len() == 11 && "url"@.len() == 3);
    assert("published_at"@.len() == 12 && "platform_updated_at"@.len() == 19);
    assert("fetch_state"@.len() == 11);
    let f0 = Seq::<Seq<char>>::empty();
    let f1 = f0 + named_if(earlier.title != new.title, "title"@);
    let f2 = f1 + named_if(earlier.company != new.company, "company"@);
    let f3 = f2 + named_if(normalized(earlier.location) != normalized(new.location), "location"@);
    let f4 = f3 + named_if(normalized(earlier.salary) != normalized(new.salary), "salary"@);
    let f5 = f4 + named_if(
        normalized(earlier.description) != normalized(new.description),
        "description"@,
    );
    let f6 = f5 + named_if(earlier.url != new.url, "url"@);
    let f7 = f6 + named_if(earlier.published_at != new.published_at, "published_at"@);
    let f8 = f7 + named_if(
        earlier.platform_updated_at != new.platform_updated_at,
        "platform_updated_at"@,
    );
    let f9 = f8 + named_if(earlier.fetch_state != new.fetch_state, "fetch_state"@);
    let fields = differing_fields(earlier, new);
    assert(f9 =~= fields);
    lemma_names(f0, earlier.title != new.title, "title"@);
    lemma_names(f1, earlier.company != new.company, "company"@);
    lemma_names(f2, normalized(earlier.location) != normalized(new.location), "location"@);
    lemma_names(f3, normalized(earlier.salary) != normalized(new.salary), "salary"@);
    lemma_names(f4, normalized(earlier.description) != normalized(new.description), "description"@);
    lemma_names(f5, earlier.url != new.url, "url"@);
    lemma_names(f6, earlier.published_at != new.published_at, "published_at"@);
    lemma_names(
        f7,
        earlier.platform_updated_at != new.platform_updated_at,
        "platform_updated_at"@,
    );
    lemma_names(f8, earlier.fetch_state != new.fetch_state, "fetch_state"@);
}

/// One more name, if there is cause for it, is among the names beside the others.
proof fn lemma_names(names: Seq<Seq<char>>, differs: bool, name: Seq<char>)
    ensures
        forall|n: Seq<char>| #[trigger]
            (names + named_if(differs, name)).contains(n) <==> names.contains(n) || (differs && n
                == name),
        names.no_duplicates() && !names.contains(name) ==> (names + named_if(
            differs,
            name,
        )).no_duplicates(),
{
    let all = names + named_if(differs, name);
    assert forall|n: Seq<char>| #[trigger] all.contains(n) <==> names.contains(n) || (differs && n
        == name) by {
        if names.contains(n) {
            let k = choose|k: int| 0 <= k < names.len() && names[k] == n;
            assert(all[k] == n);
        }
        if differs && n == name {
            assert(all[names.len() as int] == n);
        }
    }
}

/// A posting's entry differs from what is known exactly if one of its fields other
/// than the description does.
pub proof fn law_the_description_is_no_part_of_the_entry(earlier: JobView, new: JobView)
    ensures
        listing_differs(earlier, new) <==> {
            ||| earlier.title != new.title
            ||| earlier.company != new.company
            ||| normalized(earlier.location) != normalized(new.location)
            ||| normalized(earlier.salary) != normalized(new.salary)
            ||| earlier.url != new.url
            ||| earlier.published_at != new.published_at
            ||| earlier.platform_updated_at != new.platform_updated_at
            ||| earlier.fetch_state != new.fetch_state
        },
        forall|text: Option<Seq<char>>|
            listing_differs(earlier, #[trigger] with_description(new, text)) == listing_differs(
                earlier,
                new,
            ),
{
    lemma_listing_differs(earlier, new);
    assert forall|text: Option<Seq<char>>|
        listing_differs(earlier, #[trigger] with_description(new, text)) == listing_differs(
            earlier,
            new,
        ) by {
        lemma_listing_differs(earlier, with_description(new, text));
    }
}

/// A posting with another description.
pub open spec fn with_description(job: JobView, text: Option<Seq<char>>) -> JobView {
    JobView { description: text, ..job }
}

/// What makes an entry differ.
proof fn lemma_listing_differs(earlier: JobView, new: JobView)
    ensures
        listing_differs(earlier, new) <==> {
            ||| earlier.title != new.title
            ||| earlier.company != new.company
            ||| normalized(earlier.location) != normalized(new.location)
            ||| normalized(earlier.salary) != normalized(new.salary)
            ||| earlier.url != new.url
            ||| earlier.published_at != new.published_at
            ||| earlier.platform_updated_at != new.platform_updated_at
            ||| earlier.fetch_state != new.fetch_state
        },
{
    reveal_strlit("title");
    reveal_strlit("company");
    reveal_strlit("location");
    reveal_strlit("salary");
    reveal_strlit("description");
    reveal_strlit("url");
    reveal_strlit("published_at");
    reveal_strlit("platform_updated_at");
    reveal_strlit("fetch_state");
    assert("description"@[0] != "fetch_state"@[0]);
    let fields = differing_fields(earlier, new);
    law_each_difference_is_named(earlier, new);
    if earlier.title != new.title {
        let k = choose|k: int| 0 <= k < fields.len() && fields[k] == "title"@;
        assert(fields[k] != "description"@);
    }
    if earlier.company != new.company {
        let k = choose|k: int| 0 <= k < fields.len() && fields[k] == "company"@;
        assert(fields[k] != "description"@);
    }
    if normalized(earlier.location) != normalized(new.location) {
        let k = choose|k: int| 0 <= k < fields.len() && fields[k] == "location"@;
        assert(fields[k] != "description"@);
    }
    if normalized(earlier.salary) != normalized(new.salary) {
        let k = choose|k: int| 0 <= k < fields.len() && fields[k] == "salary"@;
        assert(fields[k] != "description"@);
    }
    if earlier.url != new.url {
        let k = choose|k: int| 0 <= k < fields.len() && fields[k] == "url"@;
        assert(fields[k] != "description"@);
    }
    if earlier.published_at != new.published_at {
        let k = choose|k: int| 0 <= k < fields.len() && fields[k] == "published_at"@;
        assert(fields[k] != "description"@);
    }
    if earlier.platform_updated_at != new.platform_updated_at {
        let k = choose|k: int| 0 <= k < fields.len() && fields[k] == "platform_updated_at"@;
        assert(fields[k] != "description"@);
    }
    if earlier.fetch_state != new.fetch_state {
        let k = choose|k: int| 0 <= k < fields.len() && fields[k] == "fetch_state"@;
        assert(fields[k] != "description"@);
    }
}

/// A sighting leaves what a posting says as it is, and its own tracking counts for
/// nothing: a posting that was not known is first and last seen in the run, once; one
/// that was known keeps the time of its first sighting and is seen once more.
pub proof fn law_a_sighting_changes_tracking_only(
    job: JobView,
    earlier: Option<JobView>,
    run_at: Seq<char>,
)
    ensures
        ({
            let seen = seen_in_run(job, earlier, run_at);
            &&& seen.source == job.source && seen.external_id == job.external_id
            &&& seen.title == job.title && seen.company == job.company
            &&& seen.location == job.location && seen.salary == job.salary
            &&& seen.description == job.description && seen.url == job.url
            &&& seen.published_at == job.published_at
            &&& seen.platform_updated_at == job.platform_updated_at
            &&& seen.fetch_state == job.fetch_state
            &&& seen.last_seen_at == Some(run_at)
            &&& earlier is None ==> seen.first_seen_at == Some(run_at) && seen.seen_count == 1
            &&& earlier is Some && earlier->0.first_seen_at is Some ==> seen.first_seen_at
                == earlier->0.first_seen_at
            &&& earlier is Some && earlier->0.first_seen_at is None ==> seen.first_seen_at == Some(
                run_at,
            )
            &&& earlier is Some && earlier->0.seen_count >= 1 ==> seen.seen_count
                == earlier->0.seen_count + 1
            &&& earlier is Some && earlier->0.seen_count < 1 ==> seen.seen_count == 2
        }),
{
}

/// A posting that carries the tracking of its stored state says what it said, with
/// the stored tracking.
pub proof fn law_stored_tracking_is_carried(job: JobView, stored: JobView)
    ensures
        ({
            let out = with_tracking_of(job, stored);
            &&& out.first_seen_at == stored.first_seen_at
            &&& out.last_seen_at == stored.last_seen_at
            &&& out.seen_count == stored.seen_count
            &&& out.source == job.source && out.external_id == job.external_id
            &&& out.title == job.title && out.company == job.company
            &&& out.location == job.location && out.salary == job.salary
            &&& out.description == job.description && out.url == job.url
            &&& out.published_at == job.published_at
            &&& out.platform_updated_at == job.platform_updated_at
            &&& out.fetch_state == job.fetch_state
        }),
{
}

/// A record says what its posting says, the description among it, beside the kind of
/// change, the fields that differ, and when the posting was deleted.
pub proof fn law_a_record_says_what_its_posting_says(
    kind: Seq<char>,
    job: JobView,
    fields: Seq<Seq<char>>,
    deleted_at: Option<Seq<char>>,
)
    ensures
        ({
            let record = record_of(kind, job, fields, deleted_at);
            &&& record.change_type == kind
            &&& record.changed_fields == fields
            &&& record.deleted_at == deleted_at
            &&& record.source == job.source && record.external_id == job.external_id
            &&& record.title == job.title && record.company == job.company
            &&& record.location == job.location && record.salary == job.salary
            &&& record.description == job.description && record.url == job.url
            &&& record.published_at == job.published_at
            &&& record.fetch_state == job.fetch_state
            &&& record.first_seen_at == job.first_seen_at
            &&& record.last_seen_at == job.last_seen_at
            &&& record.seen_count == job.seen_count
        }),
{
}

/// Only words count in a text that is compared: it is its words with one space
/// between each two, and no text counts as one without words.
pub proof fn law_only_words_are_compared(a: Option<Seq<char>>, b: Option<Seq<char>>)
    ensures
        normalized(None) == Seq::<char>::empty(),
        a is Some ==> normalized(a) == crate::text::join(words(a->0), seq![' ']),
        a is Some && words(a->0).len() == 0 ==> normalized(a) == normalized(None),
        a is Some && b is Some && words(a->0) == words(b->0) ==> normalized(a) == normalized(b),
{
}

/// A record says what each of its fields holds.
pub proof fn law_a_record_says_what_it_holds(x: ChangeRecord)
    ensures
        x@.change_type == x.change_type@,
        x@.source == x.source@,
        x@.external_id == x.external_id@,
        x@.title == x.title@,
        x@.company == x.company@,
        x@.location == opt_view(x.location),
        x@.salary == opt_view(x.salary),
        x@.published_at == opt_view(x.published_at),
        x@.url == x.url@,
        x@.fetch_state == x.fetch_state@,
        x@.changed_fields == views(x.changed_fields@),
        x@.description == opt_view(x.description),
        x@.deleted_at == opt_view(x.deleted_at),
        x@.first_seen_at == opt_view(x.first_seen_at),
        x@.last_seen_at == opt_view(x.last_seen_at),
        x@.seen_count == x.seen_count as int,
{
}

} // verus!
