//! Decisions of the fetchers that do not depend on the tracker.

use vstd::prelude::*;
use vstd::slice::slice_subrange;
use vstd::string::StringExecFns;

use crate::export::types::ExportAttachment;
use crate::import::convert::common::{index_of, is_index, lemma_index_of, position_of};
use crate::import::truncate;
use crate::str_map::StrMap;
use crate::text;

verus! {

// ---------------------------------------------------------------------------
// Responses
// ---------------------------------------------------------------------------

/// The number of times a request is tried before it is given up.
pub const MAX_ATTEMPTS: u32 = 6;

/// What to do with a response.
pub enum Reply {
    /// Try again after so many seconds.
    Wait(u64),
    /// This was the last attempt: give up after so many seconds.
    GiveUp(u64),
    /// The body says what went wrong.
    Refused,
    /// The body is the answer.
    Accepted,
}

/// The whole number of seconds that a header names.
pub open spec fn seconds_in(value: Seq<char>) -> Option<int> {
    let s = text::trim_of(value);
    if s.len() > 0 && s[0] == '-' {
        None
    } else {
        text::parse_int_of(s, 0, u64::MAX as int)
    }
}

/// How many seconds to wait: what the header says, or fifteen.
pub open spec fn wait_seconds(value: Option<Seq<char>>) -> int {
    match value {
        Some(v) => match seconds_in(v) {
            Some(n) => n,
            None => 15,
        },
        None => 15,
    }
}

/// How many seconds to wait, by the value of the `Retry-After` header.
pub fn retry_after_secs(value: Option<&str>) -> (r: u64)
    ensures
        r == wait_seconds(
            (match value {
                Some(v) => Some(v@),
                None => None,
            }),
        ),
{
    if let Some(v) = value {
        let chars = text::to_chars(v);
        if let Some(n) = text::parse_u64(text::trim(chars.as_slice())) {
            return n;
        }
    }
    15
}

/// What to do with a response of the given status.
pub open spec fn judged(attempt: u32, status: u16, retry_after: Option<Seq<char>>) -> Reply {
    if status == 429 {
        if attempt + 1 < MAX_ATTEMPTS {
            Reply::Wait(wait_seconds(retry_after) as u64)
        } else {
            Reply::GiveUp(wait_seconds(retry_after) as u64)
        }
    } else if 200 <= status < 300 {
        Reply::Accepted
    } else {
        Reply::Refused
    }
}

/// What to do with a response of the given status to an attempt, the first of which is
/// attempt zero: one that asks to slow down is waited for, while attempts are left; one
/// of success is read, any other is an error.
pub fn judge_response(attempt: u32, status: u16, retry_after: Option<&str>) -> (r: Reply)
    ensures
        r == judged(
            attempt,
            status,
            (match retry_after {
                Some(v) => Some(v@),
                None => None,
            }),
        ),
{
    if status == 429 {
        let seconds: u64 = retry_after_secs(retry_after);
        if attempt < MAX_ATTEMPTS - 1 {
            Reply::Wait(seconds)
        } else {
            Reply::GiveUp(seconds)
        }
    } else if 200 <= status && status < 300 {
        Reply::Accepted
    } else {
        Reply::Refused
    }
}

/// How many attempts are made, from `attempt` on, of a request whose attempts are
/// answered with the given statuses: each is followed by another while there is reason
/// to wait.
pub open spec fn attempts_made(attempt: u32, statuses: spec_fn(u32) -> u16) -> nat
    decreases MAX_ATTEMPTS - attempt,
{
    if attempt < MAX_ATTEMPTS && judged(attempt, statuses(attempt), None) is Wait {
        1 + attempts_made((attempt + 1) as u32, statuses)
    } else {
        1
    }
}

/// A request is tried a bounded number of times, however it is answered.
pub proof fn lemma_attempts_bounded(attempt: u32, statuses: spec_fn(u32) -> u16)
    requires
        attempt < MAX_ATTEMPTS,
    ensures
        attempt + attempts_made(attempt, statuses) <= MAX_ATTEMPTS,
    decreases MAX_ATTEMPTS - attempt,
{
    if judged(attempt, statuses(attempt), None) is Wait {
        lemma_attempts_bounded((attempt + 1) as u32, statuses);
    }
}

/// The message for a request that was given up.
pub fn give_up_message() -> (r: String)
    ensures
        r@ == "too many 429 retries"@,
{
    "too many 429 retries".to_owned()
}

/// The message for a response that was refused, with the start of its body.
pub open spec fn refusal(status: u16, body: Seq<char>, limit: usize) -> Seq<char> {
    "HTTP "@ + text::decimal(status as nat) + ": "@ + crate::import::truncated(body, limit as int)
}

/// The message for a response that was refused.
pub fn refusal_message(status: u16, body: &str, limit: usize) -> (r: String)
    ensures
        r@ == refusal(status, body@, limit),
{
    "HTTP ".to_owned().concat(text::nat_text(status as u64).as_str()).concat(": ").concat(
        truncate(body, limit).as_str(),
    )
}

// ---------------------------------------------------------------------------
// Attachments
// ---------------------------------------------------------------------------

/// An attachment to download.
pub struct Download {
    pub id: String,
    pub url: String,
    pub filename: String,
}

/// What a download says.
pub struct DownloadView {
    pub id: Seq<char>,
    pub url: Seq<char>,
    pub filename: Seq<char>,
}

pub open spec fn download_view(d: Download) -> DownloadView {
    DownloadView { id: d.id@, url: d.url@, filename: d.filename@ }
}

pub open spec fn download_views(v: Seq<Download>) -> Seq<DownloadView> {
    v.map_values(|d: Download| download_view(d))
}

/// The ids of the attachments.
pub open spec fn attachment_ids(v: Seq<ExportAttachment>) -> Seq<Seq<char>> {
    v.map_values(|a: ExportAttachment| a.id@)
}

/// The downloads for the URLs of attachments that the export lists.
pub open spec fn downloads(urls: Seq<(String, String)>, v: Seq<ExportAttachment>) -> Seq<DownloadView>
    decreases urls.len(),
{
    if urls.len() == 0 {
        seq![]
    } else {
        let rest = downloads(urls.drop_last(), v);
        let (id, url) = urls.last();
        match index_of(attachment_ids(v), id@) {
            Some(k) => rest.push(
                DownloadView { id: id@, url: url@, filename: v[k].filename@ },
            ),
            None => rest,
        }
    }
}

/// The warnings for the URLs of attachments that the export does not list.
pub open spec fn unlisted(urls: Seq<(String, String)>, v: Seq<ExportAttachment>) -> Seq<Seq<char>>
    decreases urls.len(),
{
    if urls.len() == 0 {
        seq![]
    } else {
        let rest = unlisted(urls.drop_last(), v);
        let (id, _) = urls.last();
        if index_of(attachment_ids(v), id@) is None {
            rest.push("attachment "@ + id@ + ": no manifest entry; skipped"@)
        } else {
            rest
        }
    }
}

fn collect_attachment_ids(v: &Vec<ExportAttachment>) -> (r: Vec<String>)
    ensures
        text::texts(r@) == attachment_ids(v@),
{
    let mut out: Vec<String> = Vec::new();
    let mut i: usize = 0;
    while i < v.len()
        invariant
            i <= v@.len(),
            out@.len() == i,
            forall|k: int| 0 <= k < i ==> (#[trigger] out@[k])@ == v@[k].id@,
        decreases v@.len() - i,
    {
        out.push(v[i].id.clone());
        i = i + 1;
    }
    assert(text::texts(out@) =~= attachment_ids(v@));
    out
}

/// Which attachments to download, with their file names. A URL of an attachment that
/// the export does not list is warned of.
pub fn plan_downloads(
    attachments: &Vec<ExportAttachment>,
    urls: &StrMap<String>,
    warnings: &mut Vec<String>,
) -> (r: Vec<Download>)
    ensures
        download_views(r@) == downloads(urls.pairs(), attachments@),
        text::texts(final(warnings)@) == text::texts(old(warnings)@) + unlisted(
            urls.pairs(),
            attachments@,
        ),
{
    let entries = urls.entries();
    let ghost all = entries@;
    let ghost v = attachments@;
    let ghost w = text::texts(warnings@);
    let list = collect_attachment_ids(attachments);
    let index = crate::import::convert::common::build_index(&list);
    let mut out: Vec<Download> = Vec::new();
    let mut i: usize = 0;
    assert(all.take(0) =~= seq![]);
    assert(download_views(out@) =~= seq![]);
    assert(w + seq![] =~= w);
    while i < entries.len()
        invariant
            i <= all.len(),
            all == entries@,
            v == attachments@,
            is_index(index@, attachment_ids(v)),
            download_views(out@) == downloads(all.take(i as int), v),
            text::texts(warnings@) == w + unlisted(all.take(i as int), v),
        decreases all.len() - i,
    {
        assert(all.take(i + 1).drop_last() =~= all.take(i as int));
        let (id, url) = &entries[i];
        let ghost before = out@;
        let ghost told = text::texts(warnings@);
        match position_of(&index, Ghost(attachment_ids(v)), id.as_str()) {
            Some(k) => {
                let d = Download {
                    id: id.clone(),
                    url: url.clone(),
                    filename: attachments[k].filename.clone(),
                };
                let ghost dv = download_view(d);
                out.push(d);
                assert(download_views(out@) =~= download_views(before).push(dv));
            },
            None => {
                let warning = "attachment ".to_owned().concat(id.as_str()).concat(
                    ": no manifest entry; skipped",
                );
                let ghost wv = warning@;
                warnings.push(warning);
                assert(text::texts(warnings@) =~= told.push(wv));
                assert(told.push(wv) =~= w + unlisted(all.take(i as int), v).push(wv));
            },
        }
        i = i + 1;
    }
    assert(all.take(all.len() as int) =~= all);
    out
}

/// The warning for a download that failed.
pub open spec fn failed_download(id: Seq<char>, url: Seq<char>, error: Seq<char>) -> Seq<char> {
    "attachment "@ + id + " ("@ + url + "): download failed: "@ + error
}

/// The warning for a download that failed.
pub fn download_warning(d: &Download, error: &str) -> (r: String)
    ensures
        r@ == failed_download(d.id@, d.url@, error@),
{
    "attachment ".to_owned().concat(d.id.as_str()).concat(" (").concat(d.url.as_str()).concat(
        "): download failed: ",
    ).concat(error)
}

// ---------------------------------------------------------------------------
// Runs
// ---------------------------------------------------------------------------

/// The file that an export is written to, where none is named.
pub fn default_out(key: &str) -> (r: String)
    ensures
        r@ == key@ + "-export.zip"@,
{
    key.to_owned().concat("-export.zip")
}

/// The base URL to use: the given one, or else that of the environment, if it is
/// not empty.
pub open spec fn base_url_of(given: Option<String>, other: Option<String>) -> Option<Seq<char>> {
    match text::opt_text(given) {
        Some(u) => if u.len() > 0 {
            Some(u)
        } else {
            None
        },
        None => match text::opt_text(other) {
            Some(u) => if u.len() > 0 {
                Some(u)
            } else {
                None
            },
            None => None,
        },
    }
}

/// Chooses the base URL.
pub fn choose_base_url(given: Option<String>, other: Option<String>) -> (r: Option<String>)
    ensures
        text::opt_text(r) == base_url_of(given, other),
{
    let url = match given {
        Some(u) => Some(u),
        None => other,
    };
    match url {
        Some(u) => if u.as_str().is_empty() {
            None
        } else {
            Some(u)
        },
        None => None,
    }
}

} // verus!
