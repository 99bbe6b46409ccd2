//! What holds of the decisions of the fetchers.

use vstd::prelude::*;

use crate::export::types::ExportAttachment;
use crate::import::convert::common::{self, index_of, lowered};
use crate::import::convert::jira::JiraProject;
use crate::import::convert::linear::{LinearIssue, LinearLabelRef};
use crate::import::fetch::{self, Reply, judged, wait_seconds};
use crate::import::jira_fetch::{self, SearchCounts};
use crate::import::linear_fetch::{
    self, Header, PageCost, StreamCounts, has_label, pause_millis, tuned, wanted_labels, without_label,
};
use crate::import::query::escaped;
use crate::text;

verus! {

/// A header with a number says how many seconds to wait; without a header fifteen seconds
/// are waited, and so they are where it holds anything that is no number.
pub proof fn lemma_wait(n: nat, other: Seq<char>)
    requires
        n <= u64::MAX,
        other.len() > 0,
        !text::is_white(other[0]),
        !text::is_white(other.last()),
        !text::is_digit(other[0]),
        other[0] != '+',
    ensures
        wait_seconds(Some(text::decimal(n))) == n,
        wait_seconds(Some(other)) == 15,
        wait_seconds(None) == 15,
{
    let d = text::decimal(n);
    text::lemma_decimal(n);
    text::lemma_parse_decimal(n, 0, u64::MAX as int);
    assert(text::is_digit(d[0]));
    assert(text::is_digit(d[d.len() - 1]));
    assert(text::trim_of(d) =~= d);
    assert(text::trim_of(other) =~= other);
}

/// A response of success is read, whichever attempt it answers. One that asks to slow down
/// is waited for on the first five attempts and given up on the sixth, for as long as its
/// header says. Any other response is an error.
pub proof fn lemma_answer(attempt: u32, status: u16, header: Option<Seq<char>>, n: nat)
    requires
        n <= u64::MAX,
        header == Some(text::decimal(n)),
    ensures
        200 <= status <= 299 <==> judged(attempt, status, header) is Accepted,
        status == 429 && attempt < 5 ==> judged(attempt, status, header) == Reply::Wait(n as u64),
        status == 429 && attempt >= 5 ==> judged(attempt, status, header) == Reply::GiveUp(
            n as u64,
        ),
        status != 429 && (status < 200 || status > 299) ==> judged(attempt, status, header)
            is Refused,
{
    lemma_wait(n, seq!['x']);
}

// ---------------------------------------------------------------------------
// Downloads
// ---------------------------------------------------------------------------

/// An attachment that is listed is downloaded from its URL under its file name; one that
/// is not listed is warned of by its id.
pub proof fn lemma_download_planned(
    urls: Seq<(String, String)>,
    v: Seq<ExportAttachment>,
    i: int,
)
    requires
        0 <= i < urls.len(),
    ensures
        forall|k: int|
            #![trigger v[k]]
            0 <= k < v.len() && v[k].id@ == urls[i].0@ && (forall|j: int|
                k < j < v.len() ==> (#[trigger] v[j]).id@ != v[k].id@) ==> exists|n: int|
                0 <= n < fetch::downloads(urls, v).len() && is_download(
                    #[trigger] fetch::downloads(urls, v)[n],
                    urls[i].0@,
                    urls[i].1@,
                    v[k].filename@,
                ),
        (forall|k: int| 0 <= k < v.len() ==> (#[trigger] v[k]).id@ != urls[i].0@)
            ==> fetch::unlisted(urls, v).contains(
            "attachment "@ + urls[i].0@ + ": no manifest entry; skipped"@,
        ),
    decreases urls.len(),
{
    let w = urls.drop_last();
    let ids = fetch::attachment_ids(v);
    let all = fetch::downloads(urls, v);
    let rest = fetch::downloads(w, v);
    if i < urls.len() - 1 {
        assert(w[i] == urls[i]);
        lemma_download_planned(w, v, i);
        assert forall|k: int|
            #![trigger v[k]]
            0 <= k < v.len() && v[k].id@ == urls[i].0@ && (forall|j: int|
                k < j < v.len() ==> (#[trigger] v[j]).id@ != v[k].id@) implies exists|n: int|
            0 <= n < all.len() && is_download(
                #[trigger] all[n],
                urls[i].0@,
                urls[i].1@,
                v[k].filename@,
            ) by {
            let n = choose|n: int|
                0 <= n < rest.len() && is_download(
                    #[trigger] rest[n],
                    urls[i].0@,
                    urls[i].1@,
                    v[k].filename@,
                );
            assert(all[n] == rest[n]);
        }
        let told = "attachment "@ + urls[i].0@ + ": no manifest entry; skipped"@;
        let before = fetch::unlisted(w, v);
        let after = fetch::unlisted(urls, v);
        if before.contains(told) {
            let n = choose|n: int| 0 <= n < before.len() && before[n] == told;
            assert(after[n] == told);
        }
    } else {
        assert forall|k: int|
            #![trigger v[k]]
            0 <= k < v.len() && v[k].id@ == urls[i].0@ && (forall|j: int|
                k < j < v.len() ==> (#[trigger] v[j]).id@ != v[k].id@) implies exists|n: int|
            0 <= n < all.len() && is_download(
                #[trigger] all[n],
                urls[i].0@,
                urls[i].1@,
                v[k].filename@,
            ) by {
            assert(ids[k] == urls[i].0@);
            assert forall|j: int| k < j < ids.len() implies #[trigger] ids[j] != ids[k] by {
                assert(v[j].id@ != v[k].id@);
            }
            common::lemma_last_index(ids, k);
            assert(is_download(all[rest.len() as int], urls[i].0@, urls[i].1@, v[k].filename@));
        }
        if forall|k: int| 0 <= k < v.len() ==> (#[trigger] v[k]).id@ != urls[i].0@ {
            common::lemma_index_of(ids, urls[i].0@);
            let before = fetch::unlisted(w, v);
            assert(index_of(ids, urls[i].0@) is None);
            assert(fetch::unlisted(urls, v)[before.len() as int] == "attachment "@ + urls[i].0@
                + ": no manifest entry; skipped"@);
        }
    }
}

/// Whether a download is of the given attachment, from the given URL and under the given
/// file name.
pub open spec fn is_download(
    d: fetch::DownloadView,
    id: Seq<char>,
    url: Seq<char>,
    filename: Seq<char>,
) -> bool {
    d.id == id && d.url == url && d.filename == filename
}

/// The URL that is given counts before that of the environment, and an empty one is none.
pub proof fn lemma_base_url(given: Option<String>, other: Option<String>)
    ensures
        given is Some && given->0@.len() > 0 ==> fetch::base_url_of(given, other) == Some(
            given->0@,
        ),
        given is None && other is Some && other->0@.len() > 0 ==> fetch::base_url_of(given, other)
            == Some(other->0@),
        given is None && other is None ==> fetch::base_url_of(given, other) is None,
        fetch::base_url_of(given, other) matches Some(u) ==> u.len() > 0,
{
}

// ---------------------------------------------------------------------------
// Page sizes and budgets
// ---------------------------------------------------------------------------

/// Under a cap of five or more, a page that ran within the bounds is followed by one of the
/// same size where nothing is known of its cost, of twice the size where items cost
/// nothing, and of the size that fits where that is known, but never of more than twice
/// the size or than the cap, nor of fewer than five items.
pub proof fn lemma_next_page(used: usize, n: usize, max: usize)
    requires
        5 <= used <= max,
    ensures
        tuned(used, PageCost::Unknown, max) == used,
        2 * used <= max ==> tuned(used, PageCost::Free, max) == 2 * used,
        2 * used > max ==> tuned(used, PageCost::Free, max) == max,
        5 <= n <= max && n <= 2 * used ==> tuned(used, PageCost::Fits(n), max) == n,
        n < 5 ==> tuned(used, PageCost::Fits(n), max) == 5,
        n > 2 * used && 2 * used <= max ==> tuned(used, PageCost::Fits(n), max) == 2 * used,
        n > max && 2 * used > max ==> tuned(used, PageCost::Fits(n), max) == max,
{
}

/// A pause comes where fewer than 15000 points or 75 requests are left, and only there. It
/// lasts until the budgets are reset, where that is known and less than a minute away; a
/// minute where it is further away; and half a minute where it is not known or over.
pub proof fn lemma_pause_until_reset(
    complexity: Option<i64>,
    requests: Option<i64>,
    reset: Option<i64>,
    now: i64,
)
    ensures
        ({
            let low = (complexity is Some && complexity->0 < 15000) || (requests is Some
                && requests->0 < 75);
            let p = pause_millis(complexity, requests, reset, now);
            &&& !low ==> p is None
            &&& low && reset is Some && now < reset->0 && reset->0 - now <= 60000 ==> p == Some(
                reset->0 - now,
            )
            &&& low && reset is Some && reset->0 - now > 60000 ==> p == Some(60000int)
            &&& low && (reset is None || reset->0 <= now) ==> p == Some(30000int)
        }),
{
}

/// Whether a name holds a text, whatever the case of its letters.
pub open spec fn says(name: Seq<char>, part: Seq<char>) -> bool {
    exists|i: int| #[trigger] text::occurs_at(lowered(name), part, i)
}

proof fn lemma_says(name: Seq<char>, part: Seq<char>)
    ensures
        linear_fetch::mentions(name, part) <==> says(name, part),
{
    text::lemma_find_from(lowered(name), part, 0);
    match text::find_of(lowered(name), part) {
        Some(k) => {
            assert(text::occurs_at(lowered(name), part, k));
        },
        None => {
            if says(name, part) {
                let i = choose|i: int| #[trigger] text::occurs_at(lowered(name), part, i);
                assert(0 <= i);
            }
        },
    }
}

/// Whether the header at `i` tells how much is left of the points, or of the requests.
pub open spec fn tells_left(v: Seq<Header>, i: int, points: bool) -> bool {
    &&& 0 <= i < v.len()
    &&& says(v[i].name@, "ratelimit"@)
    &&& says(v[i].name@, "remaining"@)
    &&& says(v[i].name@, "complex"@) == points
    &&& linear_fetch::number_in(v[i]) is Some
}

/// What is left of a budget is the least number that a header tells of it, and nothing is
/// known where no header tells any.
pub proof fn lemma_rest_told(v: Seq<Header>, points: bool)
    ensures
        match linear_fetch::rest_of(v, points) {
            Some(n) => (forall|i: int| #[trigger]
                tells_left(v, i, points) ==> n <= linear_fetch::number_in(v[i])->0) && (exists|
                i: int,
            | #[trigger]
                tells_left(v, i, points) && n == linear_fetch::number_in(v[i])->0),
            None => forall|i: int| !#[trigger] tells_left(v, i, points),
        },
    decreases v.len(),
{
    if v.len() > 0 {
        let w = v.drop_last();
        let last = v.len() - 1;
        lemma_rest_told(w, points);
        lemma_says(v[last].name@, "ratelimit"@);
        lemma_says(v[last].name@, "remaining"@);
        lemma_says(v[last].name@, "complex"@);
        assert forall|i: int| 0 <= i < last implies #[trigger] tells_left(v, i, points)
            == tells_left(w, i, points) by {
            assert(v[i] == w[i]);
        }
        let own = tells_left(v, last, points);
        match linear_fetch::rest_of(w, points) {
            Some(m) => {
                let i = choose|i: int| #[trigger]
                    tells_left(w, i, points) && m == linear_fetch::number_in(w[i])->0;
                assert(tells_left(v, i, points));
                assert(v[i] == w[i]);
            },
            None => {},
        }
    }
}

/// Whether the header at `i` tells when budgets are reset.
pub open spec fn tells_time(v: Seq<Header>, i: int) -> bool {
    &&& 0 <= i < v.len()
    &&& says(v[i].name@, "ratelimit"@)
    &&& says(v[i].name@, "reset"@)
    &&& linear_fetch::number_in(v[i]) is Some
}

/// The milliseconds of a time that is told in milliseconds or, by a smaller number, in
/// seconds.
pub open spec fn told_millis(n: int) -> int {
    if n >= 1_000_000_000_000 {
        n
    } else {
        n * 1000
    }
}

/// The budgets are reset at the earliest time that a header tells, be it in seconds or in
/// milliseconds; nothing is known where no header tells any.
pub proof fn lemma_reset_told(v: Seq<Header>)
    requires
        forall|i: int| #[trigger] tells_time(v, i) ==> linear_fetch::number_in(v[i])->0 >= 0,
    ensures
        match linear_fetch::reset_of(v) {
            Some(n) => (forall|i: int| #[trigger]
                tells_time(v, i) ==> n <= told_millis(linear_fetch::number_in(v[i])->0 as int)) && (
            exists|i: int| #[trigger]
                tells_time(v, i) && n == told_millis(linear_fetch::number_in(v[i])->0 as int)),
            None => forall|i: int| !#[trigger] tells_time(v, i),
        },
    decreases v.len(),
{
    if v.len() > 0 {
        let w = v.drop_last();
        let last = v.len() - 1;
        assert forall|i: int| 0 <= i < last implies #[trigger] tells_time(v, i) == tells_time(
            w,
            i,
        ) by {
            assert(v[i] == w[i]);
        }
        assert forall|i: int| #[trigger] tells_time(w, i) implies linear_fetch::number_in(w[i])->0
            >= 0 by {
            assert(tells_time(v, i));
        }
        lemma_reset_told(w);
        lemma_says(v[last].name@, "ratelimit"@);
        lemma_says(v[last].name@, "reset"@);
        let own = tells_time(v, last);
        match linear_fetch::reset_of(w) {
            Some(m) => {
                let i = choose|i: int| #[trigger]
                    tells_time(w, i) && m == told_millis(linear_fetch::number_in(w[i])->0 as int);
                assert(tells_time(v, i));
                assert(v[i] == w[i]);
            },
            None => {},
        }
    }
}

/// A header with a number in decimal, alone or with spaces around it, holds that number.
pub proof fn lemma_number_told(h: Header, n: nat)
    requires
        n <= i64::MAX,
        h.value is Some,
        text::trim_of(h.value->0@) == text::decimal(n),
    ensures
        linear_fetch::number_in(h) == Some(n as i64),
{
    text::lemma_parse_decimal(n, i64::MIN as int, i64::MAX as int);
}

/// The value of a header is that of the first one with its name, in whatever case.
pub proof fn lemma_header_value(v: Seq<Header>, name: Seq<char>, k: int)
    requires
        0 <= k < v.len(),
        lowered(v[k].name@) == name,
        forall|i: int| 0 <= i < k ==> lowered((#[trigger] v[i]).name@) != name,
    ensures
        linear_fetch::value_of(v, name) == text::opt_text(v[k].value),
    decreases k,
{
    if k > 0 {
        assert(lowered(v[0].name@) != name);
        let w = v.skip(1);
        assert(w[k - 1] == v[k]);
        assert forall|i: int| 0 <= i < k - 1 implies lowered((#[trigger] w[i]).name@) != name by {
            assert(w[i] == v[i + 1]);
        }
        lemma_header_value(w, name, k - 1);
    }
}

// ---------------------------------------------------------------------------
// Labels and sizes
// ---------------------------------------------------------------------------

/// Whether a label that an issue carries, or its group, has the id.
pub open spec fn node_wants(l: LinearLabelRef, id: Seq<char>) -> bool {
    l.id@ == id || (l.parent is Some && l.parent->0.id@ == id)
}

/// Whether an issue carries a label with the id, or one of the group with that id.
pub open spec fn wants(v: Seq<LinearIssue>, id: Seq<char>) -> bool {
    exists|i: int, j: int|
        0 <= i < v.len() && 0 <= j < v[i].labels.nodes@.len() && node_wants(
            #[trigger] v[i].labels.nodes@[j],
            id,
        )
}

proof fn lemma_with_text(v: Seq<Seq<char>>, s: Seq<char>)
    requires
        v.no_duplicates(),
    ensures
        common::with_text(v, s).no_duplicates(),
        forall|id: Seq<char>| #[trigger]
            common::with_text(v, s).contains(id) <==> v.contains(id) || id == s,
{
    let w = common::with_text(v, s);
    assert forall|id: Seq<char>| #[trigger] w.contains(id) <==> v.contains(id) || id == s by {
        if v.contains(id) {
            let i = choose|i: int| 0 <= i < v.len() && v[i] == id;
            assert(w[i] == id);
        }
        if id == s && !v.contains(s) {
            assert(w[v.len() as int] == s);
        }
        if w.contains(id) && !v.contains(s) {
            let i = choose|i: int| 0 <= i < w.len() && w[i] == id;
            if i < v.len() {
                assert(v[i] == id);
            }
        }
    }
}

proof fn lemma_with_wanted(rest: Seq<Seq<char>>, v: Seq<LinearLabelRef>)
    requires
        rest.no_duplicates(),
    ensures
        linear_fetch::with_wanted(rest, v).no_duplicates(),
        forall|id: Seq<char>| #[trigger]
            linear_fetch::with_wanted(rest, v).contains(id) <==> rest.contains(id) || exists|j: int|
                0 <= j < v.len() && node_wants(#[trigger] v[j], id),
    decreases v.len(),
{
    if v.len() > 0 {
        let w = v.drop_last();
        let l = v.last();
        lemma_with_wanted(rest, w);
        let before = linear_fetch::with_wanted(rest, w);
        lemma_with_text(before, l.id@);
        let one = common::with_text(before, l.id@);
        if let Some(p) = l.parent {
            lemma_with_text(one, p.id@);
        }
        let all = linear_fetch::with_wanted(rest, v);
        assert forall|id: Seq<char>| #[trigger] all.contains(id) <==> rest.contains(id) || exists|
            j: int,
        |
            0 <= j < v.len() && node_wants(#[trigger] v[j], id) by {
            assert(all.contains(id) <==> before.contains(id) || node_wants(l, id));
            if before.contains(id) && !rest.contains(id) {
                let j = choose|j: int| 0 <= j < w.len() && node_wants(#[trigger] w[j], id);
                assert(node_wants(v[j], id));
            }
            if node_wants(l, id) {
                assert(node_wants(v[v.len() - 1], id));
            }
            if exists|j: int| 0 <= j < v.len() && node_wants(#[trigger] v[j], id) {
                let j = choose|j: int| 0 <= j < v.len() && node_wants(#[trigger] v[j], id);
                if j < v.len() - 1 {
                    assert(node_wants(w[j], id));
                }
            }
        }
    }
}

proof fn lemma_wanted(v: Seq<LinearIssue>)
    ensures
        wanted_labels(v).no_duplicates(),
        forall|id: Seq<char>| #[trigger] wanted_labels(v).contains(id) <==> wants(v, id),
    decreases v.len(),
{
    if v.len() > 0 {
        let w = v.drop_last();
        let nodes = v.last().labels.nodes@;
        lemma_wanted(w);
        lemma_with_wanted(wanted_labels(w), nodes);
        assert forall|id: Seq<char>| #[trigger] wanted_labels(v).contains(id) <==> wants(v, id) by {
            if wants(w, id) {
                let (i, j) = choose|i: int, j: int|
                    0 <= i < w.len() && 0 <= j < w[i].labels.nodes@.len() && node_wants(
                        #[trigger] w[i].labels.nodes@[j],
                        id,
                    );
                assert(node_wants(v[i].labels.nodes@[j], id));
            }
            if exists|j: int| 0 <= j < nodes.len() && node_wants(#[trigger] nodes[j], id) {
                let j = choose|j: int| 0 <= j < nodes.len() && node_wants(#[trigger] nodes[j], id);
                assert(node_wants(v[v.len() - 1].labels.nodes@[j], id));
            }
            if wants(v, id) {
                let (i, j) = choose|i: int, j: int|
                    0 <= i < v.len() && 0 <= j < v[i].labels.nodes@.len() && node_wants(
                        #[trigger] v[i].labels.nodes@[j],
                        id,
                    );
                if i < v.len() - 1 {
                    assert(node_wants(w[i].labels.nodes@[j], id));
                } else {
                    assert(node_wants(nodes[j], id));
                }
            }
        }
    }
}

proof fn lemma_without(ids: Seq<Seq<char>>, v: Seq<LinearLabelRef>)
    requires
        ids.no_duplicates(),
    ensures
        without_label(ids, v).no_duplicates(),
        forall|id: Seq<char>| #[trigger]
            without_label(ids, v).contains(id) <==> ids.contains(id) && !has_label(v, id),
    decreases ids.len(),
{
    if ids.len() > 0 {
        let w = ids.drop_last();
        let s = ids.last();
        lemma_without(w, v);
        let rest = without_label(w, v);
        let all = without_label(ids, v);
        assert(!w.contains(s)) by {
            if w.contains(s) {
                let i = choose|i: int| 0 <= i < w.len() && w[i] == s;
                assert(ids[i] == ids[ids.len() - 1]);
            }
        }
        assert forall|id: Seq<char>| #[trigger] all.contains(id) <==> ids.contains(id)
            && !has_label(v, id) by {
            assert(ids =~= w.push(s));
            if ids.contains(id) {
                let i = choose|i: int| 0 <= i < ids.len() && ids[i] == id;
                if i < w.len() {
                    assert(w[i] == id);
                }
            }
            if w.contains(id) {
                let i = choose|i: int| 0 <= i < w.len() && w[i] == id;
                assert(ids[i] == id);
            }
            if rest.contains(id) {
                let i = choose|i: int| 0 <= i < rest.len() && rest[i] == id;
                assert(all[i] == id);
            }
            if all.contains(id) && !rest.contains(id) {
                let i = choose|i: int| 0 <= i < all.len() && all[i] == id;
                if i < rest.len() {
                    assert(rest[i] == id);
                }
            }
            if id == s && !has_label(v, s) {
                assert(all[rest.len() as int] == s);
            }
        }
        if !has_label(v, s) {
            assert(!rest.contains(s));
        }
    }
}

/// The labels to ask for are those that an issue carries, and their groups, that are not
/// there yet; none is asked for twice.
pub proof fn lemma_missing_labels(issues: Seq<LinearIssue>, labels: Seq<LinearLabelRef>)
    ensures
        without_label(wanted_labels(issues), labels).no_duplicates(),
        forall|id: Seq<char>| #[trigger]
            without_label(wanted_labels(issues), labels).contains(id) <==> wants(issues, id) && (
            forall|i: int| 0 <= i < labels.len() ==> (#[trigger] labels[i]).id@ != id),
{
    lemma_wanted(issues);
    lemma_without(wanted_labels(issues), labels);
    assert forall|id: Seq<char>| has_label(labels, id) <==> !(forall|i: int|
        0 <= i < labels.len() ==> (#[trigger] labels[i]).id@ != id) by {}
}

/// An attachment that was downloaded has the size of its last download, and is otherwise
/// as it was; one that was not downloaded keeps its size.
pub proof fn lemma_size_filled(a: ExportAttachment, sizes: Seq<(String, usize)>, k: int)
    requires
        0 <= k < sizes.len(),
        forall|i: int| k < i < sizes.len() ==> (#[trigger] sizes[i]).0@ != a.id@,
    ensures
        sizes[k].0@ == a.id@ && sizes[k].1 <= i64::MAX ==> linear_fetch::sized(a, sizes).size_bytes
            == sizes[k].1,
        (forall|i: int| 0 <= i < sizes.len() ==> (#[trigger] sizes[i]).0@ != a.id@)
            ==> linear_fetch::sized(a, sizes) == a,
        linear_fetch::sized(a, sizes).id == a.id,
        linear_fetch::sized(a, sizes).filename == a.filename,
        linear_fetch::sized(a, sizes).content_type == a.content_type,
        linear_fetch::sized(a, sizes).uploaded_by == a.uploaded_by,
{
    lemma_size_of(sizes, a.id@, k);
}

proof fn lemma_size_of(sizes: Seq<(String, usize)>, id: Seq<char>, k: int)
    requires
        0 <= k < sizes.len(),
        forall|i: int| k < i < sizes.len() ==> (#[trigger] sizes[i]).0@ != id,
    ensures
        sizes[k].0@ == id ==> linear_fetch::size_of(sizes, id) == Some(sizes[k].1),
        (forall|i: int| 0 <= i < sizes.len() ==> (#[trigger] sizes[i]).0@ != id)
            ==> linear_fetch::size_of(sizes, id) is None,
    decreases sizes.len(),
{
    let w = sizes.drop_last();
    if k < sizes.len() - 1 {
        assert(sizes[sizes.len() - 1].0@ != id);
        assert forall|i: int| k < i < w.len() implies (#[trigger] w[i]).0@ != id by {
            assert(w[i] == sizes[i]);
        }
        assert(w[k] == sizes[k]);
        lemma_size_of(w, id, k);
        if forall|i: int| 0 <= i < sizes.len() ==> (#[trigger] sizes[i]).0@ != id {
            assert forall|i: int| 0 <= i < w.len() implies (#[trigger] w[i]).0@ != id by {
                assert(w[i] == sizes[i]);
            }
        }
    } else if w.len() > 0 && sizes[k].0@ != id {
        if forall|i: int| 0 <= i < sizes.len() ==> (#[trigger] sizes[i]).0@ != id {
            assert forall|i: int| 0 <= i < w.len() implies (#[trigger] w[i]).0@ != id by {
                assert(w[i] == sizes[i]);
            }
            lemma_size_of(w, id, w.len() - 1);
        }
    }
}

/// The attachments that are counted are those of an imported issue.
pub proof fn lemma_attached(ids: Seq<Seq<char>>, v: Seq<Option<String>>)
    ensures
        linear_fetch::attached_count(ids, v) == v.filter(
            |o: Option<String>| o is Some && ids.contains(o->0@),
        ).len(),
    decreases v.len(),
{
    reveal(Seq::filter);
    if v.len() > 0 {
        lemma_attached(ids, v.drop_last());
    }
}

// ---------------------------------------------------------------------------
// URLs and tokens
// ---------------------------------------------------------------------------

/// Of a base URL all slashes at its end are left out, and nothing else.
pub proof fn lemma_without_slashes(s: Seq<char>)
    ensures
        ({
            let r = jira_fetch::without_slashes(s);
            &&& r.len() <= s.len()
            &&& r == s.take(r.len() as int)
            &&& forall|i: int| r.len() <= i < s.len() ==> #[trigger] s[i] == '/'
            &&& r.len() > 0 ==> r.last() != '/'
        }),
    decreases s.len(),
{
    if s.len() > 0 && s.last() == '/' {
        let w = s.drop_last();
        lemma_without_slashes(w);
        let r = jira_fetch::without_slashes(s);
        assert(s.take(r.len() as int) =~= w.take(r.len() as int));
        assert forall|i: int| r.len() <= i < s.len() implies #[trigger] s[i] == '/' by {
            if i < w.len() {
                assert(w[i] == s[i]);
            }
        }
    } else {
        assert(s.take(s.len() as int) =~= s);
    }
}

/// A search goes on exactly where a page does not say that it is the last and names a
/// token that is not empty.
pub proof fn lemma_search_goes_on(page: jira_fetch::SearchPage)
    ensures
        !page.ends() <==> !page.is_last && page.next_page_token is Some
            && page.next_page_token->0@.len() > 0,
        jira_fetch::usable(page.next_page_token) matches Some(t) ==> page.next_page_token is Some
            && t == page.next_page_token->0@ && t.len() > 0,
        !page.ends() ==> jira_fetch::usable(page.next_page_token) == Some(
            page.next_page_token->0@,
        ),
{
}

// ---------------------------------------------------------------------------
// Summaries and streams
// ---------------------------------------------------------------------------

/// Whether a text holds a label with a number right behind it.
pub open spec fn says_number(s: Seq<char>, label: Seq<char>, n: int, a: Seq<char>, b: Seq<char>) -> bool {
    s == a + label + text::decimal(n as nat) + b
}

/// Whether a text tells a number under a label.
pub open spec fn tells_number(s: Seq<char>, label: Seq<char>, n: int) -> bool {
    exists|a: Seq<char>, b: Seq<char>| #[trigger] says_number(s, label, n, a, b)
}

proof fn lemma_says_here(s: Seq<char>, label: Seq<char>, n: int)
    ensures
        tells_number(s + linear_fetch::line(label, n), label, n),
{
    let none: Seq<char> = seq![];
    assert(s + linear_fetch::line(label, n) =~= s + label + text::decimal(n as nat) + none);
    assert(says_number(s + linear_fetch::line(label, n), label, n, s, none));
}

proof fn lemma_says_more(s: Seq<char>, t: Seq<char>, label: Seq<char>, n: int)
    requires
        tells_number(s, label, n),
    ensures
        tells_number(s + t, label, n),
{
    let (a, b) = choose|a: Seq<char>, b: Seq<char>| #[trigger] says_number(s, label, n, a, b);
    assert(s + t =~= a + label + text::decimal(n as nat) + (b + t));
    assert(says_number(s + t, label, n, a, b + t));
}

/// The summary of a fetch from Linear tells every count under its own label. Of the
/// attachments that were scanned and those that are listed it tells the greater number.
pub proof fn lemma_linear_summary(
    c: StreamCounts,
    attachments: int,
    items: int,
    downloaded: int,
    shown: int,
)
    requires
        shown == (if c.attachments_scanned >= attachments {
            c.attachments_scanned as int
        } else {
            attachments
        }),
    ensures
        tells_number(c.summary(attachments, items, downloaded), "  issues:          "@, c.issues as int),
        tells_number(c.summary(attachments, items, downloaded), "\n  comments:        "@, c.comments as int),
        tells_number(c.summary(attachments, items, downloaded), "\n  issueLabels:     "@, c.issue_labels as int),
        tells_number(c.summary(attachments, items, downloaded), "\n  workflowStates:  "@, c.workflow_states as int),
        tells_number(c.summary(attachments, items, downloaded), "\n  cycles:          "@, c.cycles as int),
        tells_number(c.summary(attachments, items, downloaded), "\n  projects:        "@, c.projects as int),
        tells_number(c.summary(attachments, items, downloaded), "\n  documents:       "@, c.documents as int),
        tells_number(c.summary(attachments, items, downloaded), "\n  users:           "@, c.users as int),
        tells_number(c.summary(attachments, items, downloaded), "\n  issueRelations:  "@, c.issue_relations as int),
        tells_number(c.summary(attachments, items, downloaded), "\n  attachments:     "@, shown),
        tells_number(c.summary(attachments, items, downloaded), " referenced inline → "@, downloaded),
        tells_number(c.summary(attachments, items, downloaded), " downloaded ("@, attachments),
        tells_number(c.summary(attachments, items, downloaded), "\n  items in export: "@, items),
{
    let s0 = "Linear import summary:\n"@;
    let s1 = s0 + linear_fetch::line("  issues:          "@, c.issues as int);
    lemma_says_here(s0, "  issues:          "@, c.issues as int);
    let s2 = s1 + linear_fetch::line("\n  comments:        "@, c.comments as int);
    lemma_says_more(s1, linear_fetch::line("\n  comments:        "@, c.comments as int), "  issues:          "@, c.issues as int);
    lemma_says_here(s1, "\n  comments:        "@, c.comments as int);
    let s3 = s2 + linear_fetch::line("\n  issueLabels:     "@, c.issue_labels as int);
    lemma_says_more(s2, linear_fetch::line("\n  issueLabels:     "@, c.issue_labels as int), "  issues:          "@, c.issues as int);
    lemma_says_more(s2, linear_fetch::line("\n  issueLabels:     "@, c.issue_labels as int), "\n  comments:        "@, c.comments as int);
    lemma_says_here(s2, "\n  issueLabels:     "@, c.issue_labels as int);
    let s4 = s3 + linear_fetch::line("\n  workflowStates:  "@, c.workflow_states as int);
    lemma_says_more(s3, linear_fetch::line("\n  workflowStates:  "@, c.workflow_states as int), "  issues:          "@, c.issues as int);
    lemma_says_more(s3, linear_fetch::line("\n  workflowStates:  "@, c.workflow_states as int), "\n  comments:        "@, c.comments as int);
    lemma_says_more(s3, linear_fetch::line("\n  workflowStates:  "@, c.workflow_states as int), "\n  issueLabels:     "@, c.issue_labels as int);
    lemma_says_here(s3, "\n  workflowStates:  "@, c.workflow_states as int);
    let s5 = s4 + linear_fetch::line("\n  cycles:          "@, c.cycles as int);
    lemma_says_more(s4, linear_fetch::line("\n  cycles:          "@, c.cycles as int), "  issues:          "@, c.issues as int);
    lemma_says_more(s4, linear_fetch::line("\n  cycles:          "@, c.cycles as int), "\n  comments:        "@, c.comments as int);
    lemma_says_more(s4, linear_fetch::line("\n  cycles:          "@, c.cycles as int), "\n  issueLabels:     "@, c.issue_labels as int);
    lemma_says_more(s4, linear_fetch::line("\n  cycles:          "@, c.cycles as int), "\n  workflowStates:  "@, c.workflow_states as int);
    lemma_says_here(s4, "\n  cycles:          "@, c.cycles as int);
    let s6 = s5 + linear_fetch::line("\n  projects:        "@, c.projects as int);
    lemma_says_more(s5, linear_fetch::line("\n  projects:        "@, c.projects as int), "  issues:          "@, c.issues as int);
    lemma_says_more(s5, linear_fetch::line("\n  projects:        "@, c.projects as int), "\n  comments:        "@, c.comments as int);
    lemma_says_more(s5, linear_fetch::line("\n  projects:        "@, c.projects as int), "\n  issueLabels:     "@, c.issue_labels as int);
    lemma_says_more(s5, linear_fetch::line("\n  projects:        "@, c.projects as int), "\n  workflowStates:  "@, c.workflow_states as int);
    lemma_says_more(s5, linear_fetch::line("\n  projects:        "@, c.projects as int), "\n  cycles:          "@, c.cycles as int);
    lemma_says_here(s5, "\n  projects:        "@, c.projects as int);
    let s7 = s6 + linear_fetch::line("\n  documents:       "@, c.documents as int);
    lemma_says_more(s6, linear_fetch::line("\n  documents:       "@, c.documents as int), "  issues:          "@, c.issues as int);
    lemma_says_more(s6, linear_fetch::line("\n  documents:       "@, c.documents as int), "\n  comments:        "@, c.comments as int);
    lemma_says_more(s6, linear_fetch::line("\n  documents:       "@, c.documents as int), "\n  issueLabels:     "@, c.issue_labels as int);
    lemma_says_more(s6, linear_fetch::line("\n  documents:       "@, c.documents as int), "\n  workflowStates:  "@, c.workflow_states as int);
    lemma_says_more(s6, linear_fetch::line("\n  documents:       "@, c.documents as int), "\n  cycles:          "@, c.cycles as int);
    lemma_says_more(s6, linear_fetch::line("\n  documents:       "@, c.documents as int), "\n  projects:        "@, c.projects as int);
    lemma_says_here(s6, "\n  documents:       "@, c.documents as int);
    let s8 = s7 + linear_fetch::line("\n  users:           "@, c.users as int);
    lemma_says_more(s7, linear_fetch::line("\n  users:           "@, c.users as int), "  issues:          "@, c.issues as int);
    lemma_says_more(s7, linear_fetch::line("\n  users:           "@, c.users as int), "\n  comments:        "@, c.comments as int);
    lemma_says_more(s7, linear_fetch::line("\n  users:           "@, c.users as int), "\n  issueLabels:     "@, c.issue_labels as int);
    lemma_says_more(s7, linear_fetch::line("\n  users:           "@, c.users as int), "\n  workflowStates:  "@, c.workflow_states as int);
    lemma_says_more(s7, linear_fetch::line("\n  users:           "@, c.users as int), "\n  cycles:          "@, c.cycles as int);
    lemma_says_more(s7, linear_fetch::line("\n  users:           "@, c.users as int), "\n  projects:        "@, c.projects as int);
    lemma_says_more(s7, linear_fetch::line("\n  users:           "@, c.users as int), "\n  documents:       "@, c.documents as int);
    lemma_says_here(s7, "\n  users:           "@, c.users as int);
    let s9 = s8 + linear_fetch::line("\n  issueRelations:  "@, c.issue_relations as int);
    lemma_says_more(s8, linear_fetch::line("\n  issueRelations:  "@, c.issue_relations as int), "  issues:          "@, c.issues as int);
    lemma_says_more(s8, linear_fetch::line("\n  issueRelations:  "@, c.issue_relations as int), "\n  comments:        "@, c.comments as int);
    lemma_says_more(s8, linear_fetch::line("\n  issueRelations:  "@, c.issue_relations as int), "\n  issueLabels:     "@, c.issue_labels as int);
    lemma_says_more(s8, linear_fetch::line("\n  issueRelations:  "@, c.issue_relations as int), "\n  workflowStates:  "@, c.workflow_states as int);
    lemma_says_more(s8, linear_fetch::line("\n  issueRelations:  "@, c.issue_relations as int), "\n  cycles:          "@, c.cycles as int);
    lemma_says_more(s8, linear_fetch::line("\n  issueRelations:  "@, c.issue_relations as int), "\n  projects:        "@, c.projects as int);
    lemma_says_more(s8, linear_fetch::line("\n  issueRelations:  "@, c.issue_relations as int), "\n  documents:       "@, c.documents as int);
    lemma_says_more(s8, linear_fetch::line("\n  issueRelations:  "@, c.issue_relations as int), "\n  users:           "@, c.users as int);
    lemma_says_here(s8, "\n  issueRelations:  "@, c.issue_relations as int);
    let s10 = s9 + " (touching imported issues)"@;
    lemma_says_more(s9, " (touching imported issues)"@, "  issues:          "@, c.issues as int);
    lemma_says_more(s9, " (touching imported issues)"@, "\n  comments:        "@, c.comments as int);
    lemma_says_more(s9, " (touching imported issues)"@, "\n  issueLabels:     "@, c.issue_labels as int);
    lemma_says_more(s9, " (touching imported issues)"@, "\n  workflowStates:  "@, c.workflow_states as int);
    lemma_says_more(s9, " (touching imported issues)"@, "\n  cycles:          "@, c.cycles as int);
    lemma_says_more(s9, " (touching imported issues)"@, "\n  projects:        "@, c.projects as int);
    lemma_says_more(s9, " (touching imported issues)"@, "\n  documents:       "@, c.documents as int);
    lemma_says_more(s9, " (touching imported issues)"@, "\n  users:           "@, c.users as int);
    lemma_says_more(s9, " (touching imported issues)"@, "\n  issueRelations:  "@, c.issue_relations as int);
    let s11 = s10 + linear_fetch::line("\n  attachments:     "@, shown);
    lemma_says_more(s10, linear_fetch::line("\n  attachments:     "@, shown), "  issues:          "@, c.issues as int);
    lemma_says_more(s10, linear_fetch::line("\n  attachments:     "@, shown), "\n  comments:        "@, c.comments as int);
    lemma_says_more(s10, linear_fetch::line("\n  attachments:     "@, shown), "\n  issueLabels:     "@, c.issue_labels as int);
    lemma_says_more(s10, linear_fetch::line("\n  attachments:     "@, shown), "\n  workflowStates:  "@, c.workflow_states as int);
    lemma_says_more(s10, linear_fetch::line("\n  attachments:     "@, shown), "\n  cycles:          "@, c.cycles as int);
    lemma_says_more(s10, linear_fetch::line("\n  attachments:     "@, shown), "\n  projects:        "@, c.projects as int);
    lemma_says_more(s10, linear_fetch::line("\n  attachments:     "@, shown), "\n  documents:       "@, c.documents as int);
    lemma_says_more(s10, linear_fetch::line("\n  attachments:     "@, shown), "\n  users:           "@, c.users as int);
    lemma_says_more(s10, linear_fetch::line("\n  attachments:     "@, shown), "\n  issueRelations:  "@, c.issue_relations as int);
    lemma_says_here(s10, "\n  attachments:     "@, shown);
    let s12 = s11 + linear_fetch::line(" referenced inline → "@, downloaded);
    lemma_says_more(s11, linear_fetch::line(" referenced inline → "@, downloaded), "  issues:          "@, c.issues as int);
    lemma_says_more(s11, linear_fetch::line(" referenced inline → "@, downloaded), "\n  comments:        "@, c.comments as int);
    lemma_says_more(s11, linear_fetch::line(" referenced inline → "@, downloaded), "\n  issueLabels:     "@, c.issue_labels as int);
    lemma_says_more(s11, linear_fetch::line(" referenced inline → "@, downloaded), "\n  workflowStates:  "@, c.workflow_states as int);
    lemma_says_more(s11, linear_fetch::line(" referenced inline → "@, downloaded), "\n  cycles:          "@, c.cycles as int);
    lemma_says_more(s11, linear_fetch::line(" referenced inline → "@, downloaded), "\n  projects:        "@, c.projects as int);
    lemma_says_more(s11, linear_fetch::line(" referenced inline → "@, downloaded), "\n  documents:       "@, c.documents as int);
    lemma_says_more(s11, linear_fetch::line(" referenced inline → "@, downloaded), "\n  users:           "@, c.users as int);
    lemma_says_more(s11, linear_fetch::line(" referenced inline → "@, downloaded), "\n  issueRelations:  "@, c.issue_relations as int);
    lemma_says_more(s11, linear_fetch::line(" referenced inline → "@, downloaded), "\n  attachments:     "@, shown);
    lemma_says_here(s11, " referenced inline → "@, downloaded);
    let s13 = s12 + linear_fetch::line(" downloaded ("@, attachments);
    lemma_says_more(s12, linear_fetch::line(" downloaded ("@, attachments), "  issues:          "@, c.issues as int);
    lemma_says_more(s12, linear_fetch::line(" downloaded ("@, attachments), "\n  comments:        "@, c.comments as int);
    lemma_says_more(s12, linear_fetch::line(" downloaded ("@, attachments), "\n  issueLabels:     "@, c.issue_labels as int);
    lemma_says_more(s12, linear_fetch::line(" downloaded ("@, attachments), "\n  workflowStates:  "@, c.workflow_states as int);
    lemma_says_more(s12, linear_fetch::line(" downloaded ("@, attachments), "\n  cycles:          "@, c.cycles as int);
    lemma_says_more(s12, linear_fetch::line(" downloaded ("@, attachments), "\n  projects:        "@, c.projects as int);
    lemma_says_more(s12, linear_fetch::line(" downloaded ("@, attachments), "\n  documents:       "@, c.documents as int);
    lemma_says_more(s12, linear_fetch::line(" downloaded ("@, attachments), "\n  users:           "@, c.users as int);
    lemma_says_more(s12, linear_fetch::line(" downloaded ("@, attachments), "\n  issueRelations:  "@, c.issue_relations as int);
    lemma_says_more(s12, linear_fetch::line(" downloaded ("@, attachments), "\n  attachments:     "@, shown);
    lemma_says_more(s12, linear_fetch::line(" downloaded ("@, attachments), " referenced inline → "@, downloaded);
    lemma_says_here(s12, " downloaded ("@, attachments);
    let s14 = s13 + " in manifest)"@;
    lemma_says_more(s13, " in manifest)"@, "  issues:          "@, c.issues as int);
    lemma_says_more(s13, " in manifest)"@, "\n  comments:        "@, c.comments as int);
    lemma_says_more(s13, " in manifest)"@, "\n  issueLabels:     "@, c.issue_labels as int);
    lemma_says_more(s13, " in manifest)"@, "\n  workflowStates:  "@, c.workflow_states as int);
    lemma_says_more(s13, " in manifest)"@, "\n  cycles:          "@, c.cycles as int);
    lemma_says_more(s13, " in manifest)"@, "\n  projects:        "@, c.projects as int);
    lemma_says_more(s13, " in manifest)"@, "\n  documents:       "@, c.documents as int);
    lemma_says_more(s13, " in manifest)"@, "\n  users:           "@, c.users as int);
    lemma_says_more(s13, " in manifest)"@, "\n  issueRelations:  "@, c.issue_relations as int);
    lemma_says_more(s13, " in manifest)"@, "\n  attachments:     "@, shown);
    lemma_says_more(s13, " in manifest)"@, " referenced inline → "@, downloaded);
    lemma_says_more(s13, " in manifest)"@, " downloaded ("@, attachments);
    let s15 = s14 + linear_fetch::line("\n  items in export: "@, items);
    lemma_says_more(s14, linear_fetch::line("\n  items in export: "@, items), "  issues:          "@, c.issues as int);
    lemma_says_more(s14, linear_fetch::line("\n  items in export: "@, items), "\n  comments:        "@, c.comments as int);
    lemma_says_more(s14, linear_fetch::line("\n  items in export: "@, items), "\n  issueLabels:     "@, c.issue_labels as int);
    lemma_says_more(s14, linear_fetch::line("\n  items in export: "@, items), "\n  workflowStates:  "@, c.workflow_states as int);
    lemma_says_more(s14, linear_fetch::line("\n  items in export: "@, items), "\n  cycles:          "@, c.cycles as int);
    lemma_says_more(s14, linear_fetch::line("\n  items in export: "@, items), "\n  projects:        "@, c.projects as int);
    lemma_says_more(s14, linear_fetch::line("\n  items in export: "@, items), "\n  documents:       "@, c.documents as int);
    lemma_says_more(s14, linear_fetch::line("\n  items in export: "@, items), "\n  users:           "@, c.users as int);
    lemma_says_more(s14, linear_fetch::line("\n  items in export: "@, items), "\n  issueRelations:  "@, c.issue_relations as int);
    lemma_says_more(s14, linear_fetch::line("\n  items in export: "@, items), "\n  attachments:     "@, shown);
    lemma_says_more(s14, linear_fetch::line("\n  items in export: "@, items), " referenced inline → "@, downloaded);
    lemma_says_more(s14, linear_fetch::line("\n  items in export: "@, items), " downloaded ("@, attachments);
    lemma_says_here(s14, "\n  items in export: "@, items);
    assert(c.summary(attachments, items, downloaded) == s15);
}

/// The summary of a fetch from Jira tells every count under its own label.
pub proof fn lemma_jira_summary(p: JiraProject, c: SearchCounts)
    ensures
        tells_number(jira_fetch::summary_of(p, c), "\n  issues:          "@, c.issues as int),
        tells_number(jira_fetch::summary_of(p, c), "\n  items in export: "@, c.items as int),
        tells_number(jira_fetch::summary_of(p, c), "\n  attachments:     "@, c.attachments as int),
        tells_number(jira_fetch::summary_of(p, c), " in manifest → "@, c.downloaded as int),
        tells_number(jira_fetch::summary_of(p, c), "\n  warnings:        "@, c.warnings as int),
{
    let s0 = "Jira import summary:\n  project:         "@ + p.name@ + " ("@ + p.key@ + ")"@;
    let s1 = s0 + linear_fetch::line("\n  issues:          "@, c.issues as int);
    lemma_says_here(s0, "\n  issues:          "@, c.issues as int);
    let s2 = s1 + linear_fetch::line("\n  items in export: "@, c.items as int);
    lemma_says_more(s1, linear_fetch::line("\n  items in export: "@, c.items as int), "\n  issues:          "@, c.issues as int);
    lemma_says_here(s1, "\n  items in export: "@, c.items as int);
    let s3 = s2 + linear_fetch::line("\n  attachments:     "@, c.attachments as int);
    lemma_says_more(s2, linear_fetch::line("\n  attachments:     "@, c.attachments as int), "\n  issues:          "@, c.issues as int);
    lemma_says_more(s2, linear_fetch::line("\n  attachments:     "@, c.attachments as int), "\n  items in export: "@, c.items as int);
    lemma_says_here(s2, "\n  attachments:     "@, c.attachments as int);
    let s4 = s3 + linear_fetch::line(" in manifest → "@, c.downloaded as int);
    lemma_says_more(s3, linear_fetch::line(" in manifest → "@, c.downloaded as int), "\n  issues:          "@, c.issues as int);
    lemma_says_more(s3, linear_fetch::line(" in manifest → "@, c.downloaded as int), "\n  items in export: "@, c.items as int);
    lemma_says_more(s3, linear_fetch::line(" in manifest → "@, c.downloaded as int), "\n  attachments:     "@, c.attachments as int);
    lemma_says_here(s3, " in manifest → "@, c.downloaded as int);
    let s5 = s4 + " downloaded"@;
    lemma_says_more(s4, " downloaded"@, "\n  issues:          "@, c.issues as int);
    lemma_says_more(s4, " downloaded"@, "\n  items in export: "@, c.items as int);
    lemma_says_more(s4, " downloaded"@, "\n  attachments:     "@, c.attachments as int);
    lemma_says_more(s4, " downloaded"@, " in manifest → "@, c.downloaded as int);
    let s6 = s5 + linear_fetch::line("\n  warnings:        "@, c.warnings as int);
    lemma_says_more(s5, linear_fetch::line("\n  warnings:        "@, c.warnings as int), "\n  issues:          "@, c.issues as int);
    lemma_says_more(s5, linear_fetch::line("\n  warnings:        "@, c.warnings as int), "\n  items in export: "@, c.items as int);
    lemma_says_more(s5, linear_fetch::line("\n  warnings:        "@, c.warnings as int), "\n  attachments:     "@, c.attachments as int);
    lemma_says_more(s5, linear_fetch::line("\n  warnings:        "@, c.warnings as int), " in manifest → "@, c.downloaded as int);
    lemma_says_here(s5, "\n  warnings:        "@, c.warnings as int);
    assert(jira_fetch::summary_of(p, c) == s6);
}

/// Every stream is asked for under the name of its field. The issues, the labels, the states
/// and the cycles are those of the team, and the comments those on issues of the team.
pub proof fn lemma_streams_of_team(team: Seq<char>)
    ensures
        ({
            let v = linear_fetch::streams_of(team);
            let own = "filter:{team:{key:{eq:\""@ + escaped(team, '"') + "\"}}}"@;
            let on_issues = "filter:{issue:{team:{key:{eq:\""@ + escaped(team, '"') + "\"}}}}"@;
            &&& v.len() == 10
            &&& forall|i: int| 0 <= i < 10 ==> (#[trigger] v[i]).name == v[i].root
            &&& v[0].root == "issues"@ && v[1].root == "comments"@ && v[2].root == "attachments"@
            &&& v[3].root == "issueLabels"@ && v[4].root == "workflowStates"@
            &&& v[5].root == "cycles"@ && v[6].root == "issueRelations"@
            &&& v[7].root == "projects"@ && v[8].root == "documents"@ && v[9].root == "users"@
            &&& holds(v[0].query, own) && holds(v[3].query, own)
            &&& holds(v[4].query, own) && holds(v[5].query, own)
            &&& holds(v[1].query, on_issues)
        }),
{
    let v = linear_fetch::streams_of(team);
    let own = linear_fetch::team_filter_of(team);
    let on_issues = linear_fetch::issue_filter_of(team);
    assert(parted(v[0].query, "query($first:Int!,$after:String){ issues(first:$first, after:$after, includeArchived:true, "@, own, "){ nodes{ id identifier number title description priority estimate dueDate startedAt createdAt updatedAt completedAt canceledAt archivedAt state{id} assignee{id} creator{id} parent{id} cycle{id} project{id} projectMilestone{id} labels(first:50){ nodes{ id name color parent{id name} } } } pageInfo{ hasNextPage endCursor } } }"@));
    assert(parted(v[1].query, "query($first:Int!,$after:String){ comments(first:$first, after:$after, "@, on_issues, "){ nodes{ id body url createdAt editedAt user{id} parent{id} issue{id} } pageInfo{ hasNextPage endCursor } } }"@));
    assert(parted(v[3].query, "query($first:Int!,$after:String){ issueLabels(first:$first, after:$after, "@, own, "){ nodes{ id name color isGroup parent{id name} } pageInfo{ hasNextPage endCursor } } }"@));
    assert(parted(v[4].query, "query($first:Int!,$after:String){ workflowStates(first:$first, after:$after, "@, own, "){ nodes{ id name type position color } pageInfo{ hasNextPage endCursor } } }"@));
    assert(parted(v[5].query, "query($first:Int!,$after:String){ cycles(first:$first, after:$after, "@, own, "){ nodes{ id number name startsAt endsAt completedAt } pageInfo{ hasNextPage endCursor } } }"@));
}

/// Whether a text is made of three parts.
pub open spec fn parted(s: Seq<char>, a: Seq<char>, b: Seq<char>, c: Seq<char>) -> bool {
    s == a + b + c
}

/// Whether a text holds another.
pub open spec fn holds(s: Seq<char>, part: Seq<char>) -> bool {
    exists|a: Seq<char>, c: Seq<char>| #[trigger] parted(s, a, part, c)
}

} // verus!
