//! What is told of a run: the digest, the mail, and the digest of a day.

use vstd::prelude::*;
use vstd::string::*;
use vstd::utf8::encode_utf8;
use crate::change::{record_views, ChangeRecord, RecordView};
use crate::clock;
use crate::clock::{hyphened_date, parsed_day, slashed_date, Timestamp, MAX_DAY, MIN_DAY};
use crate::encoding;
use crate::encoding::{base64_fits, base64_text};
use crate::json;
use crate::json::{opt_tree, parsed_json, Json, JsonTree};
use crate::number;
use crate::number::decimal;
use crate::scan;
use crate::summary::{empty_summary, run_views, ChangeHistory, HistoryRun, HistoryView, RunView, SummaryView, SyncSummary};
use crate::text;
use crate::text::{byte_len, opt_view};

verus! {

broadcast use vstd::string::group_string_axioms;

// ---------------------------------------------------------------------------
// Digest
// ---------------------------------------------------------------------------

/// How many postings of each kind a digest lists.
pub const LISTED: usize = 10;

/// The three counts of a run.
pub open spec fn counts_text(new: nat, updated: nat, deleted: nat) -> Seq<char> {
    "新增："@ + decimal(new) + "\n更新："@ + decimal(updated) + "\n刪除："@ + decimal(deleted)
}

/// A posting in a digest.
pub open spec fn digest_entry(record: RecordView) -> Seq<char> {
    "\n"@ + record.title + "｜"@ + record.company + "｜"@ + (match record.location {
        Some(l) => l,
        None => "未提供"@,
    }) + "\n"@ + record.url
}

/// The postings of a list in a digest, up to `n` of them.
pub open spec fn digest_entries(records: Seq<RecordView>, n: nat) -> Seq<char>
    decreases n,
{
    if n == 0 {
        Seq::empty()
    } else if n > records.len() {
        digest_entries(records, (n - 1) as nat)
    } else {
        digest_entries(records, (n - 1) as nat) + digest_entry(records[n - 1])
    }
}

/// The part of a digest for one kind of change; no changes, no part.
pub open spec fn digest_section(label: Seq<char>, records: Seq<RecordView>) -> Seq<char> {
    if records.len() == 0 {
        Seq::empty()
    } else {
        "\n\n["@ + label + "]"@ + digest_entries(records, LISTED as nat)
    }
}

/// The digest of a run.
pub open spec fn digest(summary: SummaryView, heading: Seq<char>) -> Seq<char> {
    heading + "\n"@ + summary.generated_at + "\n\n"@ + counts_text(
        summary.new.len(),
        summary.updated.len(),
        summary.deleted.len(),
    ) + digest_section("New"@, summary.new) + digest_section("Updated"@, summary.updated)
        + digest_section("Deleted"@, summary.deleted) + (if summary.export_error is Some {
        "\n\nSQLite 已更新，但完整 JD 匯出失敗。\n"@
    } else if !summary.has_changes() {
        "\n\n目前沒有新的職缺異動。\n"@
    } else {
        Seq::empty()
    })
}

/// The three counts of a run.
fn counts_string(new: usize, updated: usize, deleted: usize) -> (r: String)
    ensures
        r@ == counts_text(new as nat, updated as nat, deleted as nat),
{
    let mut out: String = scan::concat("新增：", number::to_decimal_usize(new).as_str());
    out.append("\n更新：");
    out.append(number::to_decimal_usize(updated).as_str());
    out.append("\n刪除：");
    out.append(number::to_decimal_usize(deleted).as_str());
    out
}

/// Adds a posting to a digest.
fn append_entry(out: &mut String, record: &ChangeRecord)
    ensures
        final(out)@ == old(out)@ + digest_entry(record@),
{
    let ghost before = out@;
    out.append("\n");
    out.append(record.title.as_str());
    out.append("｜");
    out.append(record.company.as_str());
    out.append("｜");
    match &record.location {
        Some(l) => out.append(l.as_str()),
        None => out.append("未提供"),
    }
    out.append("\n");
    out.append(record.url.as_str());
    assert(out@ =~= before + digest_entry(record@));
}

/// Past the end of a list there are no more entries.
proof fn lemma_entries_end(records: Seq<RecordView>, n: nat)
    requires
        records.len() <= n,
    ensures
        digest_entries(records, n) == digest_entries(records, records.len()),
    decreases n,
{
    if records.len() < n {
        lemma_entries_end(records, (n - 1) as nat);
    }
}

/// Adds the part for one kind of change to a digest.
fn append_section(out: &mut String, label: &str, records: &Vec<ChangeRecord>)
    ensures
        final(out)@ == old(out)@ + digest_section(label@, record_views(records@)),
{
    let ghost before = out@;
    let ghost all = record_views(records@);
    if records.len() == 0 {
        assert(before + digest_section(label@, all) =~= before);
        return ;
    }
    out.append("\n\n[");
    out.append(label);
    out.append("]");
    let ghost head = out@;
    assert(head =~= before + ("\n\n["@ + label@ + "]"@));
    let mut i: usize = 0;
    assert(head + digest_entries(all, 0) =~= head);
    while i < records.len() && i < LISTED
        invariant
            all == record_views(records@),
            i <= records@.len(),
            i <= LISTED,
            out@ == head + digest_entries(all, i as nat),
        decreases records@.len() - i,
    {
        assert(all[i as int] == records@[i as int]@);
        append_entry(out, &records[i]);
        assert(out@ =~= head + digest_entries(all, (i + 1) as nat));
        i += 1;
    }
    proof {
        if records@.len() < LISTED {
            lemma_entries_end(all, LISTED as nat);
        }
    }
    assert(out@ =~= before + digest_section(label@, all));
}

/// The digest of a run.
pub fn summary_digest(summary: &SyncSummary, heading: &str) -> (r: String)
    ensures
        r@ == digest(summary@, heading@),
{
    let mut out: String = scan::concat3(heading, "\n", summary.generated_at.as_str());
    out.append("\n\n");
    out.append(
        counts_string(summary.new.len(), summary.updated.len(), summary.deleted.len()).as_str(),
    );
    append_section(&mut out, "New", &summary.new);
    append_section(&mut out, "Updated", &summary.updated);
    append_section(&mut out, "Deleted", &summary.deleted);
    let ghost body = out@;
    if summary.export_error.is_some() {
        out.append("\n\nSQLite 已更新，但完整 JD 匯出失敗。\n");
    } else if !summary.has_changes() {
        out.append("\n\n目前沒有新的職缺異動。\n");
    }
    assert(out@ =~= digest(summary@, heading@));
    out
}

// ---------------------------------------------------------------------------
// Mail
// ---------------------------------------------------------------------------

/// The subject of the mail for a day.
pub open spec fn subject_text(day: int) -> Seq<char> {
    slashed_date(day) + " JD更新"@
}

/// The subject of the mail for a day.
pub fn subject_of_day(day: i32) -> (r: String)
    requires
        MIN_DAY <= day <= MAX_DAY,
    ensures
        r@ == subject_text(day as int),
        base64_fits(byte_len(r@) as int),
{
    proof {
        reveal_strlit(" JD更新");
        text::lemma_byte_len(subject_text(day as int));
    }
    scan::concat(clock::format_slashed(day).as_str(), " JD更新")
}

/// The subject of the mail about a run, if the run's date is one.
pub fn gmail_subject(summary: &SyncSummary) -> (r: Option<String>)
    ensures
        opt_view(r) == (match parsed_day(summary@.date) {
            Some(day) => Some(subject_text(day)),
            None => None,
        }),
{
    match clock::parse_date(summary.date.as_str()) {
        Some(day) => Some(subject_of_day(day)),
        None => None,
    }
}

/// The body of the mail about a run: its three counts and nothing more.
pub fn gmail_body(summary: &SyncSummary) -> (r: String)
    ensures
        r@ == counts_text(summary@.new.len(), summary@.updated.len(), summary@.deleted.len()),
{
    counts_string(summary.new.len(), summary.updated.len(), summary.deleted.len())
}

/// A mail with a text and one attached JSON file; `transfer` tells how the text
/// is encoded.
pub open spec fn mail_text(
    recipient: Seq<char>,
    subject: Seq<char>,
    transfer: Seq<char>,
    body: Seq<char>,
    filename: Seq<char>,
    attachment: Seq<u8>,
) -> Seq<char> {
    "To: "@ + recipient + "\r\nSubject: =?UTF-8?B?"@ + base64_text(encode_utf8(subject))
        + "?=\r\nMIME-Version: 1.0\r\nContent-Type: multipart/mixed; boundary=\"job-watcher-attachment\"\r\n\r\n--job-watcher-attachment\r\nContent-Type: text/plain; charset=UTF-8\r\nContent-Transfer-Encoding: "@
        + transfer + "\r\n\r\n"@ + body
        + "\r\n--job-watcher-attachment\r\nContent-Type: application/json; name=\""@ + filename
        + "\"\r\nContent-Disposition: attachment; filename=\""@ + filename
        + "\"\r\nContent-Transfer-Encoding: base64\r\n\r\n"@ + base64_text(attachment)
        + "\r\n--job-watcher-attachment--\r\n"@
}

/// Whether what takes `len` bytes can be written in Base64.
pub fn fits_base64(len: usize) -> (r: bool)
    ensures
        r == base64_fits(len as int),
{
    let limit: usize = isize::MAX as usize;
    len / 3 < limit / 4
}

/// A mail with a text and one attached JSON file.
fn mail_string(
    recipient: &str,
    subject: &str,
    transfer: &str,
    body: &str,
    filename: &str,
    attachment: &[u8],
) -> (r: String)
    requires
        base64_fits(byte_len(subject@) as int),
        base64_fits(attachment@.len() as int),
    ensures
        r@ == mail_text(recipient@, subject@, transfer@, body@, filename@, attachment@),
{
    let mut out: String = scan::concat3("To: ", recipient, "\r\nSubject: =?UTF-8?B?");
    out.append(encoding::to_base64(subject.as_bytes()).as_str());
    out.append(
        "?=\r\nMIME-Version: 1.0\r\nContent-Type: multipart/mixed; boundary=\"job-watcher-attachment\"\r\n\r\n--job-watcher-attachment\r\nContent-Type: text/plain; charset=UTF-8\r\nContent-Transfer-Encoding: ",
    );
    out.append(transfer);
    out.append("\r\n\r\n");
    out.append(body);
    out.append("\r\n--job-watcher-attachment\r\nContent-Type: application/json; name=\"");
    out.append(filename);
    out.append("\"\r\nContent-Disposition: attachment; filename=\"");
    out.append(filename);
    out.append("\"\r\nContent-Transfer-Encoding: base64\r\n\r\n");
    out.append(encoding::to_base64(attachment).as_str());
    out.append("\r\n--job-watcher-attachment--\r\n");
    out
}

/// A mail with a text as it is and one attached JSON file.
pub fn mime_message(
    recipient: &str,
    subject: &str,
    body: &str,
    filename: &str,
    attachment: &[u8],
) -> (r: String)
    requires
        base64_fits(byte_len(subject@) as int),
        base64_fits(attachment@.len() as int),
    ensures
        r@ == mail_text(recipient@, subject@, "8bit"@, body@, filename@, attachment@),
{
    mail_string(recipient, subject, "8bit", body, filename, attachment)
}

/// A mail with a text in Base64 and one attached JSON file.
pub fn encoded_mime_message(
    recipient: &str,
    subject: &str,
    body: &str,
    filename: &str,
    attachment: &[u8],
) -> (r: String)
    requires
        base64_fits(byte_len(subject@) as int),
        base64_fits(byte_len(body@) as int),
        base64_fits(attachment@.len() as int),
    ensures
        r@ == mail_text(
            recipient@,
            subject@,
            "base64"@,
            base64_text(encode_utf8(body@)),
            filename@,
            attachment@,
        ),
{
    let encoded: String = encoding::to_base64(body.as_bytes());
    mail_string(recipient, subject, "base64", encoded.as_str(), filename, attachment)
}

// ---------------------------------------------------------------------------
// The latest run in a saved history
// ---------------------------------------------------------------------------

/// The last run of a saved history.
pub open spec fn latest_run(history: JsonTree) -> Option<JsonTree> {
    match history.items_at("runs"@) {
        Some(runs) => if runs.len() > 0 {
            Some(runs.last())
        } else {
            None
        },
        None => None,
    }
}

/// The entries of one kind in a saved run.
pub open spec fn saved_entries(run: JsonTree, key: Seq<char>) -> Seq<JsonTree> {
    match run.items_at(key) {
        Some(items) => items,
        None => Seq::empty(),
    }
}

/// A posting of a saved run in the mail: its title and its address.
pub open spec fn saved_entry(job: JsonTree) -> Seq<char> {
    "\n"@ + (match job.text_at("title"@) {
        Some(t) => t,
        None => "(無標題)"@,
    }) + "\n"@ + (match job.text_at("url"@) {
        Some(u) => u,
        None => "(無網址)"@,
    })
}

/// The first `n` postings of a list in the mail.
pub open spec fn saved_list(jobs: Seq<JsonTree>, n: int) -> Seq<char>
    decreases n,
{
    if n <= 0 {
        Seq::empty()
    } else {
        saved_list(jobs, n - 1) + saved_entry(jobs[n - 1])
    }
}

/// The part of the mail for one kind of change; no changes, no part.
pub open spec fn saved_section(run: JsonTree, key: Seq<char>, label: Seq<char>) -> Seq<char> {
    let jobs = saved_entries(run, key);
    if jobs.len() == 0 {
        Seq::empty()
    } else {
        "\n\n"@ + label + ":"@ + saved_list(jobs, jobs.len() as int)
    }
}

/// The body of the mail about a saved run: its counts, and the titles and
/// addresses of its postings.
pub open spec fn saved_run_text(run: JsonTree) -> Seq<char> {
    counts_text(
        saved_entries(run, "new"@).len(),
        saved_entries(run, "updated"@).len(),
        saved_entries(run, "deleted"@).len(),
    ) + saved_section(run, "new"@, "新增職缺"@) + saved_section(run, "updated"@, "更新職缺"@)
        + saved_section(run, "deleted"@, "刪除職缺"@)
}

/// The last run of a saved history.
pub fn find_latest_run<'a>(history: &'a Json) -> (r: Option<&'a Json>)
    ensures
        opt_tree(r) == latest_run(history.tree()),
{
    match history.get_list("runs") {
        Some(runs) => {
            let n: usize = runs.len();
            if n > 0 {
                assert(json::trees(runs@)[n - 1] == runs@[n - 1].tree());
                Some(&runs[n - 1])
            } else {
                None
            }
        },
        None => None,
    }
}

/// How many entries of one kind a saved run has.
fn count_saved(run: &Json, key: &str) -> (r: usize)
    ensures
        r == saved_entries(run.tree(), key@).len(),
{
    match run.get_list(key) {
        Some(items) => items.len(),
        None => 0,
    }
}

/// Adds the part for one kind of change in a saved run.
fn append_saved_section(out: &mut String, run: &Json, key: &str, label: &str)
    ensures
        final(out)@ == old(out)@ + saved_section(run.tree(), key@, label@),
{
    let ghost before = out@;
    let ghost all = saved_entries(run.tree(), key@);
    match run.get_list(key) {
        None => {
            assert(before + saved_section(run.tree(), key@, label@) =~= before);
        },
        Some(jobs) => {
            assert(all == json::trees(jobs@));
            if jobs.len() == 0 {
                assert(before + saved_section(run.tree(), key@, label@) =~= before);
                return ;
            }
            out.append("\n\n");
            out.append(label);
            out.append(":");
            let ghost head = out@;
            let mut i: usize = 0;
            assert(head + saved_list(all, 0) =~= head);
            while i < jobs.len()
                invariant
                    all == json::trees(jobs@),
                    i <= jobs@.len(),
                    out@ == head + saved_list(all, i as int),
                decreases jobs@.len() - i,
            {
                let ghost mid = out@;
                assert(all[i as int] == jobs@[i as int].tree());
                out.append("\n");
                match jobs[i].get_text("title") {
                    Some(t) => out.append(t),
                    None => out.append("(無標題)"),
                }
                out.append("\n");
                match jobs[i].get_text("url") {
                    Some(u) => out.append(u),
                    None => out.append("(無網址)"),
                }
                assert(out@ =~= mid + saved_entry(all[i as int]));
                assert(out@ =~= head + saved_list(all, i + 1));
                i += 1;
            }
            assert(out@ =~= before + saved_section(run.tree(), key@, label@));
        },
    }
}

/// The body of the mail about a saved run.
pub fn saved_run_body(run: &Json) -> (r: String)
    ensures
        r@ == saved_run_text(run.tree()),
{
    let mut out: String = counts_string(
        count_saved(run, "new"),
        count_saved(run, "updated"),
        count_saved(run, "deleted"),
    );
    append_saved_section(&mut out, run, "new", "新增職缺");
    append_saved_section(&mut out, run, "updated", "更新職缺");
    append_saved_section(&mut out, run, "deleted", "刪除職缺");
    out
}

/// Why there is nothing to tell of a saved history.
#[derive(Debug, PartialEq, Eq)]
pub enum LatestError {
    /// It is not JSON.
    Invalid,
    /// It has no runs.
    NoRuns,
}

/// The body of the mail about the last run of a saved history.
pub fn latest_changes_body(history: &str) -> (r: Result<String, LatestError>)
    ensures
        match parsed_json(history@) {
            None => r == Err::<String, LatestError>(LatestError::Invalid),
            Some(data) => match latest_run(data) {
                None => r == Err::<String, LatestError>(LatestError::NoRuns),
                Some(run) => r is Ok && r->Ok_0@ == saved_run_text(run),
            },
        },
{
    match json::parse(history) {
        None => Err(LatestError::Invalid),
        Some(data) => match find_latest_run(&data) {
            None => Err(LatestError::NoRuns),
            Some(run) => Ok(saved_run_body(run)),
        },
    }
}

// ---------------------------------------------------------------------------
// The digest of a day
// ---------------------------------------------------------------------------

/// The records of some runs, in order.
pub open spec fn all_records(runs: Seq<RunView>) -> Seq<RecordView>
    decreases runs.len(),
{
    if runs.len() == 0 {
        Seq::empty()
    } else {
        all_records(runs.drop_last()) + runs.last().new + runs.last().updated
            + runs.last().deleted
    }
}

/// Two records are about the same posting.
pub open spec fn same_posting(a: RecordView, b: RecordView) -> bool {
    a.source == b.source && a.external_id == b.external_id
}

/// A later record is about the same posting as the record at a position.
pub open spec fn superseded(records: Seq<RecordView>, at: int) -> bool {
    exists|j: int| at < j < records.len() && same_posting(records[at], #[trigger] records[j])
}

/// The records from a position on that no later record supersedes.
pub open spec fn latest_from(records: Seq<RecordView>, at: int) -> Seq<RecordView>
    decreases records.len() - at,
{
    if at < 0 || at >= records.len() {
        Seq::empty()
    } else if superseded(records, at) {
        latest_from(records, at + 1)
    } else {
        seq![records[at]] + latest_from(records, at + 1)
    }
}

/// The records of one kind.
pub open spec fn of_kind(records: Seq<RecordView>, kind: Seq<char>) -> Seq<RecordView>
    decreases records.len(),
{
    if records.len() == 0 {
        Seq::empty()
    } else if records.last().change_type == kind {
        of_kind(records.drop_last(), kind).push(records.last())
    } else {
        of_kind(records.drop_last(), kind)
    }
}

/// The summary of a day: the latest record of each posting.
pub open spec fn day_summary(history: HistoryView, now: Timestamp) -> SummaryView {
    let latest = latest_from(all_records(history.runs), 0);
    SummaryView {
        new: of_kind(latest, "new"@),
        updated: of_kind(latest, "updated"@),
        deleted: of_kind(latest, "deleted"@),
        ..empty_summary(now.taipei_rfc3339(), hyphened_date(now.taipei_day()), "read-only"@)
    }
}

/// The history of a day, as far as there is one.
pub enum SavedHistory {
    /// There is none.
    Missing,
    /// There is one that cannot be read.
    Unreadable,
    /// There is one.
    Found(ChangeHistory),
}

/// What is told of a day.
pub open spec fn day_text(history: SavedHistory, now: Timestamp) -> Seq<char> {
    match history {
        SavedHistory::Missing => "今日尚無職缺異動。"@,
        SavedHistory::Unreadable => "今日履歷資料無法讀取。"@,
        SavedHistory::Found(h) => if all_records(h@.runs).len() == 0 {
            "今日尚無職缺異動。"@
        } else {
            digest(day_summary(h@, now), "今日履歷"@)
        },
    }
}

/// Adds copies of some records to a list.
fn append_copies(out: &mut Vec<ChangeRecord>, more: &Vec<ChangeRecord>)
    ensures
        record_views(final(out)@) == record_views(old(out)@) + record_views(more@),
{
    let ghost before = record_views(out@);
    let ghost added = record_views(more@);
    let mut i: usize = 0;
    assert(before + added.take(0) =~= before);
    while i < more.len()
        invariant
            added == record_views(more@),
            i <= more@.len(),
            record_views(out@) == before + added.take(i as int),
        decreases more@.len() - i,
    {
        let ghost earlier = out@;
        let copy: ChangeRecord = more[i].clone();
        let ghost said = copy@;
        out.push(copy);
        assert(record_views(out@) =~= record_views(earlier).push(said));
        assert(before + added.take(i + 1) =~= (before + added.take(i as int)).push(said));
        i += 1;
    }
    assert(added.take(i as int) =~= added);
}

/// The records of some runs, in order.
fn collect_records(runs: &Vec<HistoryRun>) -> (r: Vec<ChangeRecord>)
    ensures
        record_views(r@) == all_records(run_views(runs@)),
{
    let ghost all = run_views(runs@);
    let mut out: Vec<ChangeRecord> = Vec::new();
    let mut i: usize = 0;
    assert(record_views(out@) =~= all_records(all.take(0)));
    while i < runs.len()
        invariant
            all == run_views(runs@),
            i <= runs@.len(),
            record_views(out@) == all_records(all.take(i as int)),
        decreases runs@.len() - i,
    {
        assert(all.take(i + 1).drop_last() =~= all.take(i as int));
        assert(all[i as int] == runs@[i as int]@);
        append_copies(&mut out, &runs[i].new);
        append_copies(&mut out, &runs[i].updated);
        append_copies(&mut out, &runs[i].deleted);
        i += 1;
    }
    assert(all.take(i as int) =~= all);
    out
}

/// Whether a later record is about the same posting as the record at a position.
fn is_superseded(records: &Vec<ChangeRecord>, at: usize) -> (r: bool)
    requires
        at < records@.len(),
    ensures
        r == superseded(record_views(records@), at as int),
{
    let ghost all = record_views(records@);
    assert(all[at as int] == records@[at as int]@);
    let n: usize = records.len();
    assert(at < n);
    let mut j: usize = at + 1;
    while j < records.len()
        invariant
            all == record_views(records@),
            at < j <= records@.len(),
            all[at as int] == records@[at as int]@,
            forall|k: int| at < k < j ==> !same_posting(all[at as int], #[trigger] all[k]),
        decreases records@.len() - j,
    {
        assert(all[j as int] == records@[j as int]@);
        if scan::same(records[at].source.as_str(), records[j].source.as_str()) && scan::same(
            records[at].external_id.as_str(),
            records[j].external_id.as_str(),
        ) {
            assert(same_posting(all[at as int], all[j as int]));
            return true;
        }
        j += 1;
    }
    false
}

/// The records that no later record supersedes.
fn keep_latest(records: &Vec<ChangeRecord>) -> (r: Vec<ChangeRecord>)
    ensures
        record_views(r@) == latest_from(record_views(records@), 0),
{
    let ghost all = record_views(records@);
    let mut out: Vec<ChangeRecord> = Vec::new();
    let mut i: usize = 0;
    assert(latest_from(all, 0) =~= record_views(out@) + latest_from(all, 0));
    while i < records.len()
        invariant
            all == record_views(records@),
            i <= records@.len(),
            latest_from(all, 0) =~= record_views(out@) + latest_from(all, i as int),
        decreases records@.len() - i,
    {
        let ghost earlier = out@;
        assert(all[i as int] == records@[i as int]@);
        if !is_superseded(records, i) {
            let copy: ChangeRecord = records[i].clone();
            let ghost said = copy@;
            out.push(copy);
            assert(record_views(out@) =~= record_views(earlier).push(said));
        }
        i += 1;
    }
    out
}

/// The records of one kind.
fn select_kind(records: &Vec<ChangeRecord>, kind: &str) -> (r: Vec<ChangeRecord>)
    ensures
        record_views(r@) == of_kind(record_views(records@), kind@),
{
    let ghost all = record_views(records@);
    let mut out: Vec<ChangeRecord> = Vec::new();
    let mut i: usize = 0;
    assert(record_views(out@) =~= of_kind(all.take(0), kind@));
    while i < records.len()
        invariant
            all == record_views(records@),
            i <= records@.len(),
            record_views(out@) == of_kind(all.take(i as int), kind@),
        decreases records@.len() - i,
    {
        let ghost earlier = out@;
        assert(all.take(i + 1).drop_last() =~= all.take(i as int));
        assert(all[i as int] == records@[i as int]@);
        if scan::same(records[i].change_type.as_str(), kind) {
            let copy: ChangeRecord = records[i].clone();
            let ghost said = copy@;
            out.push(copy);
            assert(record_views(out@) =~= record_views(earlier).push(said));
        }
        i += 1;
    }
    assert(all.take(i as int) =~= all);
    out
}

/// What is told of a day: the latest record of each posting that changed.
pub fn today_digest(history: &SavedHistory, now: &Timestamp) -> (r: String)
    requires
        now.has_taipei_date(),
    ensures
        r@ == day_text(*history, *now),
{
    let found: &ChangeHistory = match history {
        SavedHistory::Missing => {
            return "今日尚無職缺異動。".to_owned();
        },
        SavedHistory::Unreadable => {
            return "今日履歷資料無法讀取。".to_owned();
        },
        SavedHistory::Found(h) => h,
    };
    let records: Vec<ChangeRecord> = collect_records(&found.runs);
    if records.len() == 0 {
        return "今日尚無職缺異動。".to_owned();
    }
    let latest: Vec<ChangeRecord> = keep_latest(&records);
    let summary: SyncSummary = SyncSummary {
        generated_at: clock::taipei_rfc3339(now),
        date: clock::format_hyphened(clock::taipei_date(now)),
        trigger: "read-only".to_owned(),
        new: select_kind(&latest, "new"),
        updated: select_kind(&latest, "updated"),
        deleted: select_kind(&latest, "deleted"),
        export_path: None,
        export_error: None,
    };
    assert(summary@ =~= day_summary(found@, *now));
    summary_digest(&summary, "今日履歷")
}

/// A record is one, from a position on, that no later record supersedes.
pub open spec fn survives(records: Seq<RecordView>, at: int, record: RecordView) -> bool {
    exists|k: int|
        at <= k < records.len() && #[trigger] records[k] == record && !superseded(records, k)
}

/// A record of a list is about the posting that `record` is about.
pub open spec fn tells_of(records: Seq<RecordView>, record: RecordView) -> bool {
    exists|i: int| 0 <= i < records.len() && same_posting(record, #[trigger] records[i])
}

/// Every record that is kept survives.
proof fn lemma_latest_survive(records: Seq<RecordView>, at: int, i: int)
    requires
        0 <= at,
        0 <= i < latest_from(records, at).len(),
    ensures
        survives(records, at, latest_from(records, at)[i]),
    decreases records.len() - at,
{
    let out = latest_from(records, at);
    if superseded(records, at) {
        lemma_latest_survive(records, at + 1, i);
        let k = choose|k: int|
            at + 1 <= k < records.len() && #[trigger] records[k] == out[i] && !superseded(
                records,
                k,
            );
        assert(records[k] == out[i]);
    } else if i == 0 {
        assert(records[at] == out[0]);
    } else {
        lemma_latest_survive(records, at + 1, i - 1);
        let rest = latest_from(records, at + 1);
        assert(out[i] == rest[i - 1]);
        let k = choose|k: int|
            at + 1 <= k < records.len() && #[trigger] records[k] == rest[i - 1] && !superseded(
                records,
                k,
            );
        assert(records[k] == out[i]);
    }
}

/// No two records that are kept are about the same posting.
proof fn lemma_latest_differ(records: Seq<RecordView>, at: int, i: int, j: int)
    requires
        0 <= at,
        0 <= i < j < latest_from(records, at).len(),
    ensures
        !same_posting(latest_from(records, at)[i], latest_from(records, at)[j]),
    decreases records.len() - at,
{
    let out = latest_from(records, at);
    let rest = latest_from(records, at + 1);
    if superseded(records, at) {
        lemma_latest_differ(records, at + 1, i, j);
    } else if i == 0 {
        lemma_latest_survive(records, at + 1, j - 1);
        assert(out[j] == rest[j - 1]);
        let k = choose|k: int|
            at + 1 <= k < records.len() && #[trigger] records[k] == rest[j - 1] && !superseded(
                records,
                k,
            );
        assert(!same_posting(records[at], records[k]));
    } else {
        lemma_latest_differ(records, at + 1, i - 1, j - 1);
        assert(out[i] == rest[i - 1] && out[j] == rest[j - 1]);
    }
}

/// Every record is about a posting that one of those kept is about.
proof fn lemma_latest_cover(records: Seq<RecordView>, at: int, k: int)
    requires
        0 <= at <= k < records.len(),
    ensures
        tells_of(latest_from(records, at), records[k]),
    decreases records.len() - at,
{
    let out = latest_from(records, at);
    let rest = latest_from(records, at + 1);
    if k > at {
        lemma_latest_cover(records, at + 1, k);
        let i = choose|i: int| 0 <= i < rest.len() && same_posting(records[k], #[trigger] rest[i]);
        if superseded(records, at) {
            assert(same_posting(records[k], out[i]));
        } else {
            assert(out[i + 1] == rest[i]);
            assert(same_posting(records[k], out[i + 1]));
        }
    } else if superseded(records, at) {
        let j = choose|j: int|
            at < j < records.len() && same_posting(records[at], #[trigger] records[j]);
        lemma_latest_cover(records, at + 1, j);
        let i = choose|i: int| 0 <= i < rest.len() && same_posting(records[j], #[trigger] rest[i]);
        assert(same_posting(records[at], out[i]));
    } else {
        assert(same_posting(records[at], out[0]));
    }
}

/// Each posting that changed is told of once, by its latest record: no two of the
/// records that are kept are about the same posting, each is one of those given
/// that no later one supersedes, and every record given is about a posting that
/// one of those kept is about.
pub proof fn law_each_posting_is_told_once(records: Seq<RecordView>)
    ensures
        forall|i: int, j: int|
            0 <= i < j < latest_from(records, 0).len() ==> !same_posting(
                #[trigger] latest_from(records, 0)[i],
                #[trigger] latest_from(records, 0)[j],
            ),
        forall|i: int|
            0 <= i < latest_from(records, 0).len() ==> survives(
                records,
                0,
                #[trigger] latest_from(records, 0)[i],
            ),
        forall|k: int|
            0 <= k < records.len() ==> tells_of(latest_from(records, 0), #[trigger] records[k]),
{
    let out = latest_from(records, 0);
    assert forall|i: int, j: int| 0 <= i < j < out.len() implies !same_posting(
        #[trigger] out[i],
        #[trigger] out[j],
    ) by {
        lemma_latest_differ(records, 0, i, j);
    }
    assert forall|i: int| 0 <= i < out.len() implies survives(records, 0, #[trigger] out[i]) by {
        lemma_latest_survive(records, 0, i);
    }
    assert forall|k: int| 0 <= k < records.len() implies tells_of(out, #[trigger] records[k]) by {
        lemma_latest_cover(records, 0, k);
    }
}

/// One kind of a list that has a record more.
proof fn lemma_of_kind_push(records: Seq<RecordView>, record: RecordView, kind: Seq<char>)
    ensures
        of_kind(records.push(record), kind) == (if record.change_type == kind {
            of_kind(records, kind).push(record)
        } else {
            of_kind(records, kind)
        }),
{
    assert(records.push(record).drop_last() =~= records);
}

/// Every record is of one of the three kinds that runs write.
pub open spec fn are_run_records(records: Seq<RecordView>) -> bool {
    forall|i: int|
        0 <= i < records.len() ==> ((#[trigger] records[i]).change_type == "new"@
            || records[i].change_type == "updated"@ || records[i].change_type == "deleted"@)
}

/// How often a record stands in a list.
pub open spec fn times(records: Seq<RecordView>, record: RecordView) -> nat
    decreases records.len(),
{
    if records.len() == 0 {
        0
    } else {
        times(records.drop_last(), record) + (if records.last() == record {
            1nat
        } else {
            0nat
        })
    }
}

/// Of a list, the records of one kind are those that are of it, as often as they are
/// there, and no others.
proof fn lemma_kind(records: Seq<RecordView>, kind: Seq<char>, record: RecordView)
    ensures
        times(of_kind(records, kind), record) == (if record.change_type == kind {
            times(records, record)
        } else {
            0
        }),
        forall|i: int|
            0 <= i < of_kind(records, kind).len() ==> (#[trigger] of_kind(records, kind)[i]).change_type
                == kind,
    decreases records.len(),
{
    if records.len() > 0 {
        let fewer = records.drop_last();
        lemma_kind(fewer, kind, record);
        let before = of_kind(fewer, kind);
        let after = of_kind(records, kind);
        if records.last().change_type == kind {
            assert(after.drop_last() =~= before);
            assert forall|i: int| 0 <= i < after.len() implies (#[trigger] after[i]).change_type
                == kind by {
                if i < before.len() {
                    assert(after[i] == before[i]);
                }
            }
        }
    }
}

/// How many records there are of the three kinds.
proof fn lemma_kinds_add_up(records: Seq<RecordView>)
    requires
        are_run_records(records),
    ensures
        of_kind(records, "new"@).len() + of_kind(records, "updated"@).len() + of_kind(
            records,
            "deleted"@,
        ).len() == records.len(),
    decreases records.len(),
{
    reveal_strlit("new");
    reveal_strlit("updated");
    reveal_strlit("deleted");
    assert("new"@.len() != "updated"@.len() && "updated"@[0] != "deleted"@[0]);
    if records.len() > 0 {
        let fewer = records.drop_last();
        assert forall|i: int| 0 <= i < fewer.len() implies ((#[trigger] fewer[i]).change_type
            == "new"@ || fewer[i].change_type == "updated"@ || fewer[i].change_type == "deleted"@) by {
            assert(fewer[i] == records[i]);
        }
        lemma_kinds_add_up(fewer);
        assert(records[records.len() - 1] == records.last());
    }
}

/// The latest records of a day are the day's records without those that a later one
/// supersedes.
pub open spec fn is_latest(records: Seq<RecordView>, i: int) -> bool {
    forall|j: int|
        i < j < records.len() ==> !((#[trigger] records[j]).source == records[i].source
            && records[j].external_id == records[i].external_id)
}

/// How many of the records from a position on are the latest, and which.
proof fn lemma_latest(records: Seq<RecordView>, at: int)
    requires
        0 <= at <= records.len(),
    ensures
        ({
            let out = latest_from(records, at);
            &&& forall|k: int|
                0 <= k < out.len() ==> exists|i: int|
                    at <= i < records.len() && is_latest(records, i) && #[trigger] records[i]
                        == #[trigger] out[k]
            &&& forall|i: int|
                at <= i < records.len() && is_latest(records, i) ==> out.contains(
                    #[trigger] records[i],
                )
        }),
    decreases records.len() - at,
{
    if at < records.len() {
        lemma_latest(records, at + 1);
        let rest = latest_from(records, at + 1);
        let out = latest_from(records, at);
        assert(superseded(records, at) <==> !is_latest(records, at)) by {
            if superseded(records, at) {
                let j = choose|j: int|
                    at < j < records.len() && same_posting(records[at], #[trigger] records[j]);
                assert(records[j].source == records[at].source);
            }
            if !is_latest(records, at) {
                let j = choose|j: int|
                    at < j < records.len() && (#[trigger] records[j]).source == records[at].source
                        && records[j].external_id == records[at].external_id;
                assert(same_posting(records[at], records[j]));
            }
        }
        assert forall|k: int| 0 <= k < out.len() implies exists|i: int|
            at <= i < records.len() && is_latest(records, i) && #[trigger] records[i]
                == #[trigger] out[k] by {
            if superseded(records, at) {
                assert(out[k] == rest[k]);
            } else if k > 0 {
                assert(out[k] == rest[k - 1]);
            } else {
                assert(out[0] == records[at]);
                assert(is_latest(records, at));
            }
        }
        assert forall|i: int| at <= i < records.len() && is_latest(records, i) implies out.contains(
            #[trigger] records[i],
        ) by {
            if i == at {
                assert(out[0] == records[at]);
            } else {
                let k = choose|k: int| 0 <= k < rest.len() && rest[k] == records[i];
                if superseded(records, at) {
                    assert(out[k] == records[i]);
                } else {
                    assert(out[k + 1] == records[i]);
                }
            }
        }
    }
}

/// Each of the day's latest records stands in the day's summary under its own kind, as
/// often as it is there, and nothing else does.
pub proof fn law_a_days_records_are_told_by_kind(
    history: HistoryView,
    now: Timestamp,
    record: RecordView,
)
    requires
        are_run_records(latest_from(all_records(history.runs), 0)),
    ensures
        ({
            let latest = latest_from(all_records(history.runs), 0);
            let day = day_summary(history, now);
            &&& day.new.len() + day.updated.len() + day.deleted.len() == latest.len()
            &&& forall|i: int| 0 <= i < day.new.len() ==> (#[trigger] day.new[i]).change_type == "new"@
            &&& forall|i: int|
                0 <= i < day.updated.len() ==> (#[trigger] day.updated[i]).change_type == "updated"@
            &&& forall|i: int|
                0 <= i < day.deleted.len() ==> (#[trigger] day.deleted[i]).change_type == "deleted"@
            &&& record.change_type == "new"@ ==> times(day.new, record) == times(latest, record)
            &&& record.change_type == "updated"@ ==> times(day.updated, record) == times(
                latest,
                record,
            )
            &&& record.change_type == "deleted"@ ==> times(day.deleted, record) == times(
                latest,
                record,
            )
            &&& day.generated_at == now.taipei_rfc3339()
            &&& day.export_error is None
        }),
{
    let latest = latest_from(all_records(history.runs), 0);
    lemma_kinds_add_up(latest);
    lemma_kind(latest, "new"@, record);
    lemma_kind(latest, "updated"@, record);
    lemma_kind(latest, "deleted"@, record);
}

/// Of a day's records, those are told of that are the last about their posting, and
/// all of those.
pub proof fn law_the_last_record_of_a_posting_counts(records: Seq<RecordView>, i: int)
    requires
        0 <= i < records.len(),
    ensures
        is_latest(records, i) ==> latest_from(records, 0).contains(records[i]),
        forall|k: int|
            0 <= k < latest_from(records, 0).len() ==> exists|j: int|
                0 <= j < records.len() && is_latest(records, j) && #[trigger] records[j]
                    == #[trigger] latest_from(records, 0)[k],
{
    lemma_latest(records, 0);
}

/// A day's records are those of all its runs, run by run, the new ones first and the
/// deleted ones last.
pub proof fn law_a_days_records_are_all_runs_records(a: Seq<RunView>, b: Seq<RunView>, run: RunView)
    ensures
        all_records(a + b) == all_records(a) + all_records(b),
        all_records(seq![run]) == run.new + run.updated + run.deleted,
        all_records(Seq::empty()) == Seq::<RecordView>::empty(),
    decreases b.len(),
{
    assert(seq![run].drop_last() =~= Seq::empty());
    reveal_with_fuel(all_records, 2);
    assert(all_records(seq![run]) =~= run.new + run.updated + run.deleted);
    if b.len() == 0 {
        assert(a + b =~= a);
        assert(all_records(a) + all_records(b) =~= all_records(a));
    } else {
        law_a_days_records_are_all_runs_records(a, b.drop_last(), run);
        assert((a + b).drop_last() =~= a + b.drop_last());
        assert((a + b).last() == b.last());
        assert(all_records(a + b) =~= all_records(a) + all_records(b));
    }
}

/// A day without records is told of as one without changes; a day with some as their
/// digest.
pub proof fn law_a_day_is_told_by_its_digest(history: ChangeHistory, now: Timestamp)
    ensures
        day_text(SavedHistory::Missing, now) == "今日尚無職缺異動。"@,
        day_text(SavedHistory::Unreadable, now) == "今日履歷資料無法讀取。"@,
        all_records(history@.runs).len() == 0 ==> day_text(SavedHistory::Found(history), now)
            == "今日尚無職缺異動。"@,
        all_records(history@.runs).len() > 0 ==> day_text(SavedHistory::Found(history), now)
            == digest(day_summary(history@, now), "今日履歷"@),
{
}

/// A digest starts with its heading, the time and the three counts, and then tells of
/// new, updated and deleted postings, each kind under its label and only if there are
/// any; an export that failed is told of, and so is it when nothing changed.
pub proof fn law_a_digest_tells_each_kind(summary: SummaryView, heading: Seq<char>)
    ensures
        ({
            let start = heading + "\n"@ + summary.generated_at + "\n\n"@ + "新增："@ + decimal(
                summary.new.len(),
            ) + "\n更新："@ + decimal(summary.updated.len()) + "\n刪除："@ + decimal(
                summary.deleted.len(),
            );
            let new = listed_under("New"@, summary.new);
            let updated = listed_under("Updated"@, summary.updated);
            let deleted = listed_under("Deleted"@, summary.deleted);
            let failed = "\n\nSQLite 已更新，但完整 JD 匯出失敗。\n"@;
            let nothing = "\n\n目前沒有新的職缺異動。\n"@;
            &&& summary.export_error is Some ==> digest(summary, heading) == start + new + updated
                + deleted + failed
            &&& summary.export_error is None && summary.new.len() + summary.updated.len()
                + summary.deleted.len() == 0 ==> digest(summary, heading) == start + nothing
            &&& summary.export_error is None && summary.new.len() + summary.updated.len()
                + summary.deleted.len() > 0 ==> digest(summary, heading) == start + new + updated
                + deleted
        }),
{
    let start = heading + "\n"@ + summary.generated_at + "\n\n"@ + "新增："@ + decimal(
        summary.new.len(),
    ) + "\n更新："@ + decimal(summary.updated.len()) + "\n刪除："@ + decimal(
        summary.deleted.len(),
    );
    lemma_section("New"@, summary.new);
    lemma_section("Updated"@, summary.updated);
    lemma_section("Deleted"@, summary.deleted);
    let counted = heading + "\n"@ + summary.generated_at + "\n\n"@ + counts_text(
        summary.new.len(),
        summary.updated.len(),
        summary.deleted.len(),
    );
    assert(counted =~= start);
    let new = listed_under("New"@, summary.new);
    let updated = listed_under("Updated"@, summary.updated);
    let deleted = listed_under("Deleted"@, summary.deleted);
    if summary.export_error is None {
        if !summary.has_changes() {
            assert(digest(summary, heading) =~= start + "\n\n目前沒有新的職缺異動。\n"@);
        } else {
            assert(digest(summary, heading) =~= start + new + updated + deleted);
        }
    }
}

/// What is told of the first ten postings of a kind, under a label: of each its title,
/// its company, its place and its address.
pub open spec fn listed_under(label: Seq<char>, records: Seq<RecordView>) -> Seq<char> {
    let shown = if records.len() < 10 {
        records
    } else {
        records.take(10)
    };
    if records.len() == 0 {
        Seq::empty()
    } else {
        "\n\n["@ + label + "]"@ + told(shown)
    }
}

/// What is told of some postings, one behind the other.
pub open spec fn told(records: Seq<RecordView>) -> Seq<char>
    decreases records.len(),
{
    if records.len() == 0 {
        Seq::empty()
    } else {
        let r = records.last();
        let place = match r.location {
            Some(l) => l,
            None => "未提供"@,
        };
        told(records.drop_last()) + ("\n"@ + r.title + "｜"@ + r.company + "｜"@ + place + "\n"@
            + r.url)
    }
}

/// A part of a digest tells of its first ten postings.
proof fn lemma_section(label: Seq<char>, records: Seq<RecordView>)
    ensures
        digest_section(label, records) == listed_under(label, records),
{
    if records.len() > 0 {
        let n: nat = if records.len() < 10 {
            records.len()
        } else {
            10
        };
        if records.len() <= 10 {
            lemma_entries_end(records, 10);
            assert(records.take(records.len() as int) =~= records);
        }
        lemma_told(records, n);
        assert(records.take(n as int) =~= (if records.len() < 10 {
            records
        } else {
            records.take(10)
        }));
    }
}

/// The first entries of a digest tell of the first postings.
proof fn lemma_told(records: Seq<RecordView>, n: nat)
    requires
        n <= records.len(),
    ensures
        digest_entries(records, n) == told(records.take(n as int)),
    decreases n,
{
    if n > 0 {
        lemma_told(records, (n - 1) as nat);
        assert(records.take(n as int).drop_last() =~= records.take(n - 1));
        assert(records.take(n as int).last() == records[n - 1]);
        assert(digest_entry(records[n - 1]) =~= "\n"@ + records[n - 1].title + "｜"@
            + records[n - 1].company + "｜"@ + (match records[n - 1].location {
            Some(l) => l,
            None => "未提供"@,
        }) + "\n"@ + records[n - 1].url);
    }
}

/// One more record of a day supersedes those about its posting; the others stay, in
/// order, and it comes behind them.
pub proof fn law_a_later_record_supersedes(records: Seq<RecordView>, record: RecordView)
    ensures
        latest_from(records.push(record), 0) == latest_from(records, 0).filter(
            |r: RecordView| !(r.source == record.source && r.external_id == record.external_id),
        ).push(record),
        latest_from(Seq::empty(), 0).len() == 0,
{
    lemma_latest_push(records, record, 0);
}

/// One more record supersedes those about its posting, from a position on.
proof fn lemma_latest_push(records: Seq<RecordView>, record: RecordView, at: int)
    requires
        0 <= at <= records.len(),
    ensures
        latest_from(records.push(record), at) == latest_from(records, at).filter(
            |r: RecordView| !(r.source == record.source && r.external_id == record.external_id),
        ).push(record),
    decreases records.len() - at,
{
    let other = |r: RecordView|
        !(r.source == record.source && r.external_id == record.external_id);
    let more = records.push(record);
    reveal(Seq::filter);
    if at == records.len() {
        assert(!superseded(more, at));
        assert(latest_from(more, at + 1) =~= Seq::empty());
        assert(latest_from(more, at) =~= seq![record]);
        assert(latest_from(records, at) =~= Seq::empty());
        assert(Seq::<RecordView>::empty().filter(other).push(record) =~= seq![record]);
    } else {
        lemma_latest_push(records, record, at + 1);
        assert(more[at] == records[at]);
        let rest = latest_from(records, at + 1);
        assert(superseded(more, at) <==> superseded(records, at) || same_posting(
            records[at],
            record,
        )) by {
            if superseded(records, at) {
                let j = choose|j: int|
                    at < j < records.len() && same_posting(records[at], #[trigger] records[j]);
                assert(more[j] == records[j]);
            }
            assert(more[records.len() as int] == record);
            if superseded(more, at) {
                let j = choose|j: int|
                    at < j < more.len() && same_posting(more[at], #[trigger] more[j]);
                if j < records.len() {
                    assert(more[j] == records[j]);
                }
            }
        }
        if !superseded(records, at) {
            let one = seq![records[at]];
            Seq::filter_distributes_over_add(one, rest, other);
            assert(one.drop_last() =~= Seq::empty());
            assert(one.last() == records[at]);
            assert(one.drop_last().filter(other) =~= Seq::empty());
            if same_posting(records[at], record) {
                assert(one.filter(other) =~= Seq::empty());
                assert(Seq::empty() + rest.filter(other) =~= rest.filter(other));
            } else {
                assert(one.filter(other) =~= one);
                assert((one + rest.filter(other)).push(record) =~= one + rest.filter(other).push(
                    record,
                ));
            }
        }
    }
}

/// The records of a kind keep their order.
pub proof fn law_records_of_a_kind_keep_their_order(
    a: Seq<RecordView>,
    record: RecordView,
    kind: Seq<char>,
)
    ensures
        of_kind(Seq::empty(), kind).len() == 0,
        record.change_type == kind ==> of_kind(a.push(record), kind) == of_kind(a, kind).push(
            record,
        ),
        record.change_type != kind ==> of_kind(a.push(record), kind) == of_kind(a, kind),
{
    assert(a.push(record).drop_last() =~= a);
}

/// The mail of a day has the day, with slashes, in its subject.
pub proof fn law_mails_are_about_their_day(date: (int, int, int))
    requires
        crate::clock::is_date(date),
    ensures
        subject_text(crate::clock::day_number(date)) == crate::clock::year_text(date.0) + seq!['/']
            + crate::clock::two_digits(date.1) + seq!['/'] + crate::clock::two_digits(date.2)
            + " JD更新"@,
{
    crate::clock::law_dates_are_written_in_parts(date.0, date.1, date.2);
}

/// A mail goes to its recipient, has its subject in Base64, its text as it is given,
/// and its file, in Base64, under its name.
pub proof fn law_a_mail_has_its_parts(
    recipient: Seq<char>,
    subject: Seq<char>,
    transfer: Seq<char>,
    body: Seq<char>,
    filename: Seq<char>,
    attachment: Seq<u8>,
)
    ensures
        ({
            let mail = mail_text(recipient, subject, transfer, body, filename, attachment);
            let head = "To: "@ + recipient + "\r\nSubject: =?UTF-8?B?"@ + base64_text(
                encode_utf8(subject),
            )
                + "?=\r\nMIME-Version: 1.0\r\nContent-Type: multipart/mixed; boundary=\"job-watcher-attachment\"\r\n\r\n--job-watcher-attachment\r\nContent-Type: text/plain; charset=UTF-8\r\nContent-Transfer-Encoding: "@
                + transfer + "\r\n\r\n"@;
            let between = "\r\n--job-watcher-attachment\r\nContent-Type: application/json; name=\""@
                + filename + "\"\r\nContent-Disposition: attachment; filename=\""@ + filename
                + "\"\r\nContent-Transfer-Encoding: base64\r\n\r\n"@;
            let end = "\r\n--job-watcher-attachment--\r\n"@;
            &&& mail.len() == head.len() + body.len() + between.len() + base64_text(
                attachment,
            ).len() + end.len()
            &&& mail == head + body + between + base64_text(attachment) + end
        }),
{
    let head = "To: "@ + recipient + "\r\nSubject: =?UTF-8?B?"@ + base64_text(encode_utf8(subject))
        + "?=\r\nMIME-Version: 1.0\r\nContent-Type: multipart/mixed; boundary=\"job-watcher-attachment\"\r\n\r\n--job-watcher-attachment\r\nContent-Type: text/plain; charset=UTF-8\r\nContent-Transfer-Encoding: "@
        + transfer + "\r\n\r\n"@;
    let a = "\r\n--job-watcher-attachment\r\nContent-Type: application/json; name=\""@;
    let b = "\"\r\nContent-Disposition: attachment; filename=\""@;
    let c = "\"\r\nContent-Transfer-Encoding: base64\r\n\r\n"@;
    lemma_between(head + body, a, filename, b, c);
}

/// What stands between two texts may be put together first.
proof fn lemma_between(
    x: Seq<char>,
    a: Seq<char>,
    name: Seq<char>,
    b: Seq<char>,
    c: Seq<char>,
)
    ensures
        x + a + name + b + name + c == x + (a + name + b + name + c),
{
    assert(x + a + name =~= x + (a + name));
    assert(x + (a + name) + b =~= x + (a + name + b));
    assert(x + (a + name + b) + name =~= x + (a + name + b + name));
    assert(x + (a + name + b + name) + c =~= x + (a + name + b + name + c));
}

/// The last run of a saved history counts; a history without runs has none.
pub proof fn law_the_last_saved_run_counts(
    history: JsonTree,
    runs: Seq<JsonTree>,
    run: JsonTree,
)
    ensures
        history.items_at("runs"@) == Some(runs.push(run)) ==> latest_run(history) == Some(run),
        history.items_at("runs"@) == Some(Seq::<JsonTree>::empty()) ==> latest_run(history) is None,
        history.items_at("runs"@) is None ==> latest_run(history) is None,
{
    assert(runs.push(run).last() == run);
}

/// What is told of some saved postings, one behind the other: of each its title and
/// its address.
pub open spec fn told_of_saved(jobs: Seq<JsonTree>) -> Seq<char>
    decreases jobs.len(),
{
    if jobs.len() == 0 {
        Seq::empty()
    } else {
        let job = jobs.last();
        let title = match job.text_at("title"@) {
            Some(t) => t,
            None => "(無標題)"@,
        };
        let url = match job.text_at("url"@) {
            Some(u) => u,
            None => "(無網址)"@,
        };
        told_of_saved(jobs.drop_last()) + ("\n"@ + title + "\n"@ + url)
    }
}

/// The mail about a saved run tells how many postings are new, updated and deleted,
/// and then, under a label for each kind that has any, all of them.
pub proof fn law_a_saved_run_is_told_by_kind(
    run: JsonTree,
    new: Seq<JsonTree>,
    updated: Seq<JsonTree>,
    deleted: Seq<JsonTree>,
)
    requires
        run.items_at("new"@) == Some(new) || (run.items_at("new"@) is None && new.len() == 0),
        run.items_at("updated"@) == Some(updated) || (run.items_at("updated"@) is None
            && updated.len() == 0),
        run.items_at("deleted"@) == Some(deleted) || (run.items_at("deleted"@) is None
            && deleted.len() == 0),
    ensures
        ({
            let counts = "新增："@ + decimal(new.len()) + "\n更新："@ + decimal(updated.len())
                + "\n刪除："@ + decimal(deleted.len());
            let a = if new.len() > 0 {
                "\n\n"@ + "新增職缺"@ + ":"@ + told_of_saved(new)
            } else {
                Seq::empty()
            };
            let b = if updated.len() > 0 {
                "\n\n"@ + "更新職缺"@ + ":"@ + told_of_saved(updated)
            } else {
                Seq::empty()
            };
            let c = if deleted.len() > 0 {
                "\n\n"@ + "刪除職缺"@ + ":"@ + told_of_saved(deleted)
            } else {
                Seq::empty()
            };
            saved_run_text(run) == counts + a + b + c
        }),
{
    assert(saved_entries(run, "new"@) =~= new);
    assert(saved_entries(run, "updated"@) =~= updated);
    assert(saved_entries(run, "deleted"@) =~= deleted);
    lemma_told_of_saved(new, new.len() as int);
    lemma_told_of_saved(updated, updated.len() as int);
    lemma_told_of_saved(deleted, deleted.len() as int);
    assert(new.take(new.len() as int) =~= new);
    assert(updated.take(updated.len() as int) =~= updated);
    assert(deleted.take(deleted.len() as int) =~= deleted);
}

/// The first postings of a list are told one behind the other.
proof fn lemma_told_of_saved(jobs: Seq<JsonTree>, n: int)
    requires
        0 <= n <= jobs.len(),
    ensures
        saved_list(jobs, n) == told_of_saved(jobs.take(n)),
    decreases n,
{
    if n > 0 {
        lemma_told_of_saved(jobs, n - 1);
        let some = jobs.take(n);
        assert(some.drop_last() =~= jobs.take(n - 1));
        assert(some.last() == jobs[n - 1]);
    }
}

} // verus!
