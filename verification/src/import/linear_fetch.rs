//! What a fetch of a Linear team asks for, and how it goes on.
//!
//! A query may cost only so many points, and so may all queries of an hour. So each
//! kind of entity is a flat stream of its own, fetched page by page with few fields;
//! entities refer to each other by id and are joined afterwards. The size of the
//! pages follows what pages cost, and the fetch pauses where little is left of a
//! budget.

use core::time::Duration;

use vstd::prelude::*;
use vstd::string::StringExecFns;

use crate::export::types::{ExportAttachment, SpaceExport};
use crate::import::convert::common::{add_text, lower_text, lowered, with_text};
use crate::import::convert::linear::{LinearIssue, LinearLabelRef};
use crate::import::query::{escape_for, escaped};
use crate::text;

verus! {

/// The GraphQL endpoint of Linear.
pub const DEFAULT_BASE_URL: &'static str = "https://api.linear.app/graphql";

/// What a fetch can be tuned by.
pub struct LinearImportOptions {
    /// Key of the team, such as `WMT`.
    pub team_key: String,
    /// GraphQL endpoint; where empty, [`DEFAULT_BASE_URL`].
    pub base_url: String,
    /// Size of the first page of each stream.
    pub seed_page_size: usize,
    /// The greatest page size.
    pub max_page_size: usize,
}

impl Default for LinearImportOptions {
    fn default() -> (r: Self)
        ensures
            r.team_key@ == ""@,
            r.base_url@ == DEFAULT_BASE_URL@,
            r.seed_page_size == 10,
            r.max_page_size == 250,
    {
        LinearImportOptions {
            team_key: "".to_owned(),
            base_url: DEFAULT_BASE_URL.to_owned(),
            seed_page_size: 10,
            max_page_size: 250,
        }
    }
}

/// Result of a fetch.
pub struct LinearImportOutput {
    /// The archive for the import wizard.
    pub zip: Vec<u8>,
    /// Warnings of the conversion and of downloads.
    pub warnings: Vec<String>,
    /// Counts for each stream.
    pub summary: String,
}

/// The endpoint to use.
pub fn endpoint(opts: &LinearImportOptions) -> (r: String)
    ensures
        r@ == (if opts.base_url@.len() == 0 {
            DEFAULT_BASE_URL@
        } else {
            opts.base_url@
        }),
{
    if opts.base_url.as_str().is_empty() {
        DEFAULT_BASE_URL.to_owned()
    } else {
        opts.base_url.clone()
    }
}

// ---------------------------------------------------------------------------
// Page sizes
// ---------------------------------------------------------------------------

/// The least page size, where no smaller cap is set.
pub const MIN_PAGE: usize = 5;

/// What the cost of a page says about the next one.
pub enum PageCost {
    /// There is no usable cost.
    Unknown,
    /// An item costs nothing.
    Free,
    /// So many items fit the target.
    Fits(usize),
}

/// `n`, or the bound that it exceeds.
pub open spec fn clamped(n: int, lo: int, hi: int) -> int {
    if n < lo {
        lo
    } else if n > hi {
        hi
    } else {
        n
    }
}

/// The greatest page size. No page is empty, so a cap of zero counts as one.
pub open spec fn page_limit(max: usize) -> int {
    if max == 0 {
        1
    } else {
        max as int
    }
}

/// The least page size under a cap.
pub open spec fn page_floor(max: usize) -> int {
    if page_limit(max) < MIN_PAGE {
        page_limit(max)
    } else {
        MIN_PAGE as int
    }
}

fn limit_of(max: usize) -> (r: usize)
    ensures
        r == page_limit(max),
{
    if max == 0 {
        1
    } else {
        max
    }
}

/// `n`, or the bound on page sizes that it exceeds.
fn within_bounds(n: usize, max: usize) -> (r: usize)
    ensures
        r == clamped(n as int, page_floor(max), page_limit(max)),
{
    let limit: usize = limit_of(max);
    let floor: usize = if limit < MIN_PAGE {
        limit
    } else {
        MIN_PAGE
    };
    if n < floor {
        floor
    } else if n > limit {
        limit
    } else {
        n
    }
}

/// The size of the next page: as many items as fit, but at most twice as many as
/// before, and within bounds. Without a usable cost it stays; where an item costs
/// nothing, it doubles.
pub open spec fn tuned(used: usize, cost: PageCost, max: usize) -> int {
    let ran = if used == 0 {
        1
    } else {
        used as int
    };
    match cost {
        PageCost::Unknown => clamped(ran, page_floor(max), page_limit(max)),
        PageCost::Free => clamped(2 * ran, page_floor(max), page_limit(max)),
        PageCost::Fits(n) => clamped(
            if n < 2 * ran {
                n as int
            } else {
                2 * ran
            },
            page_floor(max),
            page_limit(max),
        ),
    }
}

/// The size of the next page.
pub fn tuned_page_size(used: usize, cost: &PageCost, max: usize) -> (r: usize)
    ensures
        r == tuned(used, *cost, max),
        max >= 1 ==> 1 <= r <= max,
{
    let ran: usize = if used == 0 {
        1
    } else {
        used
    };
    let wanted: usize = match cost {
        PageCost::Unknown => ran,
        PageCost::Free => if ran > usize::MAX / 2 {
            usize::MAX
        } else {
            ran * 2
        },
        PageCost::Fits(n) => {
            let half: usize = *n / 2;
            if half < ran {
                *n
            } else {
                ran * 2
            }
        },
    };
    within_bounds(wanted, max)
}

/// A page size is never zero and never above the cap, and no page is more than twice
/// as large as the one before it, but for the least size.
pub proof fn lemma_page_size(used: usize, cost: PageCost, max: usize)
    ensures
        1 <= page_floor(max) <= tuned(used, cost, max) <= page_limit(max),
        max >= 1 ==> tuned(used, cost, max) <= max,
        used > 0 ==> tuned(used, cost, max) <= 2 * used || tuned(used, cost, max) == page_floor(max),
{
}

/// The size of the first page.
pub fn first_page_size(seed: usize, max: usize) -> (r: usize)
    ensures
        r == clamped(seed as int, page_floor(max), page_limit(max)),
        max >= 1 ==> 1 <= r <= max,
{
    within_bounds(seed, max)
}

// ---------------------------------------------------------------------------
// Budgets
// ---------------------------------------------------------------------------

/// The duration of so many milliseconds.
pub uninterp spec fn millis_duration(millis: u64) -> Duration;

/// `Duration::from_millis`: the duration of so many milliseconds, a function of
/// that number.
pub assume_specification[ core::time::Duration::from_millis ](millis: u64) -> (r: Duration)
    ensures
        r == millis_duration(millis),
;

/// Below this, the complexity budget is low.
pub const COMPLEXITY_FLOOR: i64 = 15_000;

/// Below this, the request budget is low.
pub const REQUESTS_FLOOR: i64 = 75;

/// The longest pause, in milliseconds.
pub const MAX_SLEEP_MS: i64 = 60_000;

/// The pause where the time of the reset is not known, in milliseconds.
pub const DEFAULT_SLEEP_MS: i64 = 30_000;

/// Whether what is left is known to be below the floor.
pub open spec fn is_low(left: Option<i64>, floor: i64) -> bool {
    left matches Some(n) && n < floor
}

/// How many milliseconds to pause: until the reset, but not too long, where a budget
/// is low.
pub open spec fn pause_millis(
    complexity: Option<i64>,
    requests: Option<i64>,
    reset: Option<i64>,
    now: i64,
) -> Option<int> {
    if !is_low(complexity, COMPLEXITY_FLOOR) && !is_low(requests, REQUESTS_FLOOR) {
        None
    } else {
        match reset {
            Some(t) => if t > now {
                if t - now < MAX_SLEEP_MS {
                    Some(t - now)
                } else {
                    Some(MAX_SLEEP_MS as int)
                }
            } else {
                Some(DEFAULT_SLEEP_MS as int)
            },
            None => Some(DEFAULT_SLEEP_MS as int),
        }
    }
}

/// The pause as a duration.
pub open spec fn pause_of(millis: Option<int>) -> Option<Duration> {
    match millis {
        Some(n) => Some(millis_duration(n as u64)),
        None => None,
    }
}

/// How long to pause before the next request, by what is left of the budgets. There
/// is no pause where both look healthy.
pub fn backoff(
    complexity_remaining: Option<i64>,
    requests_remaining: Option<i64>,
    reset_epoch_ms: Option<i64>,
    now_ms: i64,
) -> (r: Option<Duration>)
    ensures
        r == pause_of(
            pause_millis(complexity_remaining, requests_remaining, reset_epoch_ms, now_ms),
        ),
{
    let low_complexity = match complexity_remaining {
        Some(c) => c < COMPLEXITY_FLOOR,
        None => false,
    };
    let low_requests = match requests_remaining {
        Some(n) => n < REQUESTS_FLOOR,
        None => false,
    };
    if !low_complexity && !low_requests {
        return None;
    }
    match reset_epoch_ms {
        Some(reset) => {
            if reset > now_ms {
                let wait: i128 = reset as i128 - now_ms as i128;
                if wait < MAX_SLEEP_MS as i128 {
                    return Some(Duration::from_millis(wait as u64));
                }
                return Some(Duration::from_millis(MAX_SLEEP_MS as u64));
            }
            Some(Duration::from_millis(DEFAULT_SLEEP_MS as u64))
        },
        None => Some(Duration::from_millis(DEFAULT_SLEEP_MS as u64)),
    }
}

/// There is a pause where, and only where, a budget is low, and it is never longer
/// than a minute.
pub proof fn lemma_pause(
    complexity: Option<i64>,
    requests: Option<i64>,
    reset: Option<i64>,
    now: i64,
)
    ensures
        ({
            let p = pause_millis(complexity, requests, reset, now);
            &&& p is Some <==> is_low(complexity, COMPLEXITY_FLOOR) || is_low(
                requests,
                REQUESTS_FLOOR,
            )
            &&& p matches Some(n) ==> 0 < n <= MAX_SLEEP_MS
        }),
{
}

/// What the headers of a response say about budgets.
pub struct RateHeaders {
    pub complexity_remaining: Option<i64>,
    pub requests_remaining: Option<i64>,
    /// When the budgets are reset, in milliseconds since the epoch.
    pub reset_epoch_ms: Option<i64>,
}

/// The name and the value of a header. A value that is not text is absent.
pub struct Header {
    pub name: String,
    pub value: Option<String>,
}

/// Whether a name holds the text, in any case.
pub open spec fn mentions(name: Seq<char>, part: Seq<char>) -> bool {
    text::find_of(lowered(name), part) is Some
}

/// The number that a header holds.
pub open spec fn number_in(h: Header) -> Option<i64> {
    match h.value {
        Some(v) => match text::parse_int_of(
            text::trim_of(v@),
            i64::MIN as int,
            i64::MAX as int,
        ) {
            Some(n) => Some(n as i64),
            None => None,
        },
        None => None,
    }
}

/// Whether a header tells what is left of a budget: of complexity, or of requests.
pub open spec fn tells_rest(h: Header, complexity: bool) -> bool {
    mentions(h.name@, "ratelimit"@) && mentions(h.name@, "remaining"@) && mentions(
        h.name@,
        "complex"@,
    ) == complexity
}

/// Whether a header tells when budgets are reset.
pub open spec fn tells_reset(h: Header) -> bool {
    mentions(h.name@, "ratelimit"@) && mentions(h.name@, "reset"@)
}

/// The lesser of a number and one that may be there.
pub open spec fn least(o: Option<i64>, n: i64) -> i64 {
    match o {
        Some(m) => if m < n {
            m
        } else {
            n
        },
        None => n,
    }
}

/// The least number of the headers that tell what is left of a budget.
pub open spec fn rest_of(v: Seq<Header>, complexity: bool) -> Option<i64>
    decreases v.len(),
{
    if v.len() == 0 {
        None
    } else {
        let o = rest_of(v.drop_last(), complexity);
        match number_in(v.last()) {
            Some(n) => if tells_rest(v.last(), complexity) {
                Some(least(o, n))
            } else {
                o
            },
            None => o,
        }
    }
}

/// A time in milliseconds: a small number counts seconds.
pub open spec fn as_millis(n: i64) -> i64 {
    if n >= 1_000_000_000_000 {
        n
    } else if n * 1000 < i64::MIN {
        i64::MIN
    } else {
        (n * 1000) as i64
    }
}

/// The earliest reset that the headers tell.
pub open spec fn reset_of(v: Seq<Header>) -> Option<i64>
    decreases v.len(),
{
    if v.len() == 0 {
        None
    } else {
        let o = reset_of(v.drop_last());
        match number_in(v.last()) {
            Some(n) => if tells_reset(v.last()) {
                Some(least(o, as_millis(n)))
            } else {
                o
            },
            None => o,
        }
    }
}

fn find_number(h: &Header) -> (r: Option<i64>)
    ensures
        r == number_in(*h),
{
    match &h.value {
        Some(v) => {
            let chars = text::to_chars(v.as_str());
            text::parse_i64(text::trim(chars.as_slice()))
        },
        None => None,
    }
}

fn lesser(o: Option<i64>, n: i64) -> (r: i64)
    ensures
        r == least(o, n),
{
    match o {
        Some(m) => if m < n {
            m
        } else {
            n
        },
        None => n,
    }
}

fn to_millis(n: i64) -> (r: i64)
    ensures
        r == as_millis(n),
{
    if n >= 1_000_000_000_000 {
        n
    } else if n < -9_223_372_036_854_775 {
        i64::MIN
    } else {
        n * 1000
    }
}

/// Reads what the headers say about budgets. The names of such headers are matched by
/// their parts, and of several the least number counts.
pub fn parse_rate_headers(headers: &Vec<Header>) -> (r: RateHeaders)
    ensures
        r.complexity_remaining == rest_of(headers@, true),
        r.requests_remaining == rest_of(headers@, false),
        r.reset_epoch_ms == reset_of(headers@),
{
    let mut complexity_remaining: Option<i64> = None;
    let mut requests_remaining: Option<i64> = None;
    let mut reset_epoch_ms: Option<i64> = None;
    let mut i: usize = 0;
    assert(headers@.take(0) =~= seq![]);
    while i < headers.len()
        invariant
            i <= headers@.len(),
            complexity_remaining == rest_of(headers@.take(i as int), true),
            requests_remaining == rest_of(headers@.take(i as int), false),
            reset_epoch_ms == reset_of(headers@.take(i as int)),
        decreases headers@.len() - i,
    {
        assert(headers@.take(i + 1).drop_last() =~= headers@.take(i as int));
        let h = &headers[i];
        let chars = text::to_chars(h.name.as_str());
        let name = lower_text(chars.as_slice());
        let limits = text::find(name.as_slice(), "ratelimit").is_some();
        if let Some(n) = find_number(h) {
            if limits && text::find(name.as_slice(), "remaining").is_some() {
                if text::find(name.as_slice(), "complex").is_some() {
                    complexity_remaining = Some(lesser(complexity_remaining, n));
                } else {
                    requests_remaining = Some(lesser(requests_remaining, n));
                }
            }
            if limits && text::find(name.as_slice(), "reset").is_some() {
                reset_epoch_ms = Some(lesser(reset_epoch_ms, to_millis(n)));
            }
        }
        i = i + 1;
    }
    assert(headers@.take(headers@.len() as int) =~= headers@);
    RateHeaders { complexity_remaining, requests_remaining, reset_epoch_ms }
}

/// The value of the first header of a name that is given in lower case.
pub open spec fn value_of(v: Seq<Header>, name: Seq<char>) -> Option<Seq<char>>
    decreases v.len(),
{
    if v.len() == 0 {
        None
    } else if lowered(v[0].name@) == name {
        text::opt_text(v[0].value)
    } else {
        value_of(v.skip(1), name)
    }
}

/// The value of the first header of a name that is given in lower case.
pub fn header_value(headers: &Vec<Header>, name: &str) -> (r: Option<String>)
    ensures
        text::opt_text(r) == value_of(headers@, name@),
{
    let mut i: usize = 0;
    assert(headers@.skip(0) =~= headers@);
    while i < headers.len()
        invariant
            i <= headers@.len(),
            value_of(headers@, name@) == value_of(headers@.skip(i as int), name@),
        decreases headers@.len() - i,
    {
        assert(headers@.skip(i as int).skip(1) =~= headers@.skip(i + 1));
        let chars = text::to_chars(headers[i].name.as_str());
        let lower = lower_text(chars.as_slice());
        if text::equals(lower.as_slice(), name) {
            return headers[i].value.clone();
        }
        i = i + 1;
    }
    None
}

// ---------------------------------------------------------------------------
// Queries
// ---------------------------------------------------------------------------

/// Escapes a text for a GraphQL literal.
pub fn escape(s: &str) -> (r: String)
    ensures
        r@ == escaped(s@, '"'),
{
    escape_for(s, '"')
}

/// The filter for entities of a team.
pub open spec fn team_filter_of(team: Seq<char>) -> Seq<char> {
    "filter:{team:{key:{eq:\""@ + escaped(team, '"') + "\"}}}"@
}

/// The filter for entities of the issues of a team.
pub open spec fn issue_filter_of(team: Seq<char>) -> Seq<char> {
    "filter:{issue:{team:{key:{eq:\""@ + escaped(team, '"') + "\"}}}}"@
}

/// The filter for entities of a team.
pub fn team_filter(team_key: &str) -> (r: String)
    ensures
        r@ == team_filter_of(team_key@),
{
    "filter:{team:{key:{eq:\"".to_owned().concat(escape(team_key).as_str()).concat("\"}}}")
}

/// The filter for entities of the issues of a team.
pub fn issue_filter(team_key: &str) -> (r: String)
    ensures
        r@ == issue_filter_of(team_key@),
{
    "filter:{issue:{team:{key:{eq:\"".to_owned().concat(escape(team_key).as_str()).concat("\"}}}}")
}

/// A flat stream of pages.
pub struct Stream {
    /// The name, by which the progress of the stream is kept.
    pub name: &'static str,
    pub query: String,
    /// The field of the response that holds the page.
    pub root: &'static str,
}

/// What a stream says.
pub struct StreamView {
    pub name: Seq<char>,
    pub root: Seq<char>,
    pub query: Seq<char>,
}

pub open spec fn stream_view(s: Stream) -> StreamView {
    StreamView { name: s.name@, root: s.root@, query: s.query@ }
}

pub open spec fn stream_views(v: Seq<Stream>) -> Seq<StreamView> {
    v.map_values(|s: Stream| stream_view(s))
}

/// The streams of a team. Attachments and relations can not be asked for by team.
pub open spec fn streams_of(team: Seq<char>) -> Seq<StreamView> {
    seq![
        StreamView {
            name: "issues"@,
            root: "issues"@,
            query: "query($first:Int!,$after:String){ issues(first:$first, after:$after, includeArchived:true, "@ + team_filter_of(team) + "){ nodes{ id identifier number title description priority estimate dueDate startedAt createdAt updatedAt completedAt canceledAt archivedAt state{id} assignee{id} creator{id} parent{id} cycle{id} project{id} projectMilestone{id} labels(first:50){ nodes{ id name color parent{id name} } } } pageInfo{ hasNextPage endCursor } } }"@,
        },
        StreamView {
            name: "comments"@,
            root: "comments"@,
            query: "query($first:Int!,$after:String){ comments(first:$first, after:$after, "@ + issue_filter_of(team) + "){ nodes{ id body url createdAt editedAt user{id} parent{id} issue{id} } pageInfo{ hasNextPage endCursor } } }"@,
        },
        StreamView {
            name: "attachments"@,
            root: "attachments"@,
            query: "query($first:Int!,$after:String){ attachments(first:$first, after:$after){ nodes{ id title subtitle url sourceType issue{id} } pageInfo{ hasNextPage endCursor } } }"@,
        },
        StreamView {
            name: "issueLabels"@,
            root: "issueLabels"@,
            query: "query($first:Int!,$after:String){ issueLabels(first:$first, after:$after, "@ + team_filter_of(team) + "){ nodes{ id name color isGroup parent{id name} } pageInfo{ hasNextPage endCursor } } }"@,
        },
        StreamView {
            name: "workflowStates"@,
            root: "workflowStates"@,
            query: "query($first:Int!,$after:String){ workflowStates(first:$first, after:$after, "@ + team_filter_of(team) + "){ nodes{ id name type position color } pageInfo{ hasNextPage endCursor } } }"@,
        },
        StreamView {
            name: "cycles"@,
            root: "cycles"@,
            query: "query($first:Int!,$after:String){ cycles(first:$first, after:$after, "@ + team_filter_of(team) + "){ nodes{ id number name startsAt endsAt completedAt } pageInfo{ hasNextPage endCursor } } }"@,
        },
        StreamView {
            name: "issueRelations"@,
            root: "issueRelations"@,
            query: "query($first:Int!,$after:String){ issueRelations(first:$first, after:$after){ nodes{ id type issue{id} relatedIssue{id} } pageInfo{ hasNextPage endCursor } } }"@,
        },
        StreamView {
            name: "projects"@,
            root: "projects"@,
            query: "query($first:Int!,$after:String){ projects(first:$first, after:$after){ nodes{ id name description state startDate targetDate projectMilestones(first:25){ nodes{ id name targetDate } } } pageInfo{ hasNextPage endCursor } } }"@,
        },
        StreamView {
            name: "documents"@,
            root: "documents"@,
            query: "query($first:Int!,$after:String){ documents(first:$first, after:$after){ nodes{ id title content icon createdAt updatedAt creator{id} project{id} } pageInfo{ hasNextPage endCursor } } }"@,
        },
        StreamView {
            name: "users"@,
            root: "users"@,
            query: "query($first:Int!,$after:String){ users(first:$first, after:$after){ nodes{ id name email active admin } pageInfo{ hasNextPage endCursor } } }"@,
        },
    ]
}

/// The streams of a team.
pub fn streams(team_key: &str) -> (r: Vec<Stream>)
    ensures
        stream_views(r@) == streams_of(team_key@),
{
    let tf = team_filter(team_key);
    let isf = issue_filter(team_key);
    let mut out: Vec<Stream> = Vec::new();
    out.push(
        Stream {
            name: "issues",
            root: "issues",
            query: "query($first:Int!,$after:String){ issues(first:$first, after:$after, includeArchived:true, ".to_owned().concat(tf.as_str()).concat("){ nodes{ id identifier number title description priority estimate dueDate startedAt createdAt updatedAt completedAt canceledAt archivedAt state{id} assignee{id} creator{id} parent{id} cycle{id} project{id} projectMilestone{id} labels(first:50){ nodes{ id name color parent{id name} } } } pageInfo{ hasNextPage endCursor } } }"),
        },
    );
    out.push(
        Stream {
            name: "comments",
            root: "comments",
            query: "query($first:Int!,$after:String){ comments(first:$first, after:$after, ".to_owned().concat(isf.as_str()).concat("){ nodes{ id body url createdAt editedAt user{id} parent{id} issue{id} } pageInfo{ hasNextPage endCursor } } }"),
        },
    );
    out.push(
        Stream {
            name: "attachments",
            root: "attachments",
            query: "query($first:Int!,$after:String){ attachments(first:$first, after:$after){ nodes{ id title subtitle url sourceType issue{id} } pageInfo{ hasNextPage endCursor } } }".to_owned(),
        },
    );
    out.push(
        Stream {
            name: "issueLabels",
            root: "issueLabels",
            query: "query($first:Int!,$after:String){ issueLabels(first:$first, after:$after, ".to_owned().concat(tf.as_str()).concat("){ nodes{ id name color isGroup parent{id name} } pageInfo{ hasNextPage endCursor } } }"),
        },
    );
    out.push(
        Stream {
            name: "workflowStates",
            root: "workflowStates",
            query: "query($first:Int!,$after:String){ workflowStates(first:$first, after:$after, ".to_owned().concat(tf.as_str()).concat("){ nodes{ id name type position color } pageInfo{ hasNextPage endCursor } } }"),
        },
    );
    out.push(
        Stream {
            name: "cycles",
            root: "cycles",
            query: "query($first:Int!,$after:String){ cycles(first:$first, after:$after, ".to_owned().concat(tf.as_str()).concat("){ nodes{ id number name startsAt endsAt completedAt } pageInfo{ hasNextPage endCursor } } }"),
        },
    );
    out.push(
        Stream {
            name: "issueRelations",
            root: "issueRelations",
            query: "query($first:Int!,$after:String){ issueRelations(first:$first, after:$after){ nodes{ id type issue{id} relatedIssue{id} } pageInfo{ hasNextPage endCursor } } }".to_owned(),
        },
    );
    out.push(
        Stream {
            name: "projects",
            root: "projects",
            query: "query($first:Int!,$after:String){ projects(first:$first, after:$after){ nodes{ id name description state startDate targetDate projectMilestones(first:25){ nodes{ id name targetDate } } } pageInfo{ hasNextPage endCursor } } }".to_owned(),
        },
    );
    out.push(
        Stream {
            name: "documents",
            root: "documents",
            query: "query($first:Int!,$after:String){ documents(first:$first, after:$after){ nodes{ id title content icon createdAt updatedAt creator{id} project{id} } pageInfo{ hasNextPage endCursor } } }".to_owned(),
        },
    );
    out.push(
        Stream {
            name: "users",
            root: "users",
            query: "query($first:Int!,$after:String){ users(first:$first, after:$after){ nodes{ id name email active admin } pageInfo{ hasNextPage endCursor } } }".to_owned(),
        },
    );
    assert(stream_views(out@) =~= streams_of(team_key@));
    out
}

/// No two streams share a name, so the progress of one is not taken for that of
/// another.
pub proof fn lemma_stream_names(team: Seq<char>)
    ensures
        forall|i: int, j: int|
            0 <= i < j < streams_of(team).len() ==> (#[trigger] streams_of(team)[i]).name != (
            #[trigger] streams_of(team)[j]).name,
{
    reveal_strlit("issues");
    reveal_strlit("comments");
    reveal_strlit("attachments");
    reveal_strlit("issueLabels");
    reveal_strlit("workflowStates");
    reveal_strlit("cycles");
    reveal_strlit("issueRelations");
    reveal_strlit("projects");
    reveal_strlit("documents");
    reveal_strlit("users");
    assert("issues"@.len() == 6 && "cycles"@.len() == 6 && "issues"@[0] != "cycles"@[0]);
    assert("comments"@.len() == 8 && "projects"@.len() == 8 && "comments"@[0] != "projects"@[0]);
    assert("attachments"@.len() == 11 && "issueLabels"@.len() == 11);
    assert("attachments"@[0] != "issueLabels"@[0]);
    assert("workflowStates"@.len() == 14 && "issueRelations"@.len() == 14);
    assert("workflowStates"@[0] != "issueRelations"@[0]);
    assert("documents"@.len() == 9);
    assert("users"@.len() == 5);
}

/// The query for a team.
pub fn team_query(team_key: &str) -> (r: String)
    ensures
        r@ == "{ teams(filter:{key:{eq:\""@ + escaped(team_key@, '"')
            + "\"}}){ nodes{ id key name description issueEstimationType } } }"@,
{
    "{ teams(filter:{key:{eq:\"".to_owned().concat(escape(team_key).as_str()).concat(
        "\"}}){ nodes{ id key name description issueEstimationType } } }",
    )
}

// ---------------------------------------------------------------------------
// Paging
// ---------------------------------------------------------------------------

/// Where a page stands in its stream.
pub struct PageInfo {
    pub has_next_page: bool,
    pub end_cursor: Option<String>,
}

/// What is known of a page that was fetched.
pub struct PageOutcome {
    pub info: PageInfo,
    /// What its cost says, where it was told.
    pub cost: Option<PageCost>,
    pub rate: RateHeaders,
}

/// What the next request of a stream asks for.
pub struct StreamState {
    pub cursor: Option<String>,
    pub page_size: usize,
}

/// What to do after a page.
pub struct PageStep {
    /// The progress to keep.
    pub checkpoint: Option<String>,
    /// Whether there is another page.
    pub more: bool,
    /// How long to pause before it.
    pub pause: Option<Duration>,
}

/// The size of the page after one that was fetched.
pub open spec fn next_size(used: usize, page: PageOutcome, max: usize) -> int {
    match page.cost {
        Some(c) => tuned(used, c, max),
        None => used as int,
    }
}

/// Goes on after a page: the next request starts at its end, with a size that its
/// cost suggests, after a pause if a budget is low. A stream ends with the page that
/// has no next one.
pub fn after_page(state: &mut StreamState, page: &PageOutcome, max: usize, now_ms: i64) -> (r:
    PageStep)
    ensures
        text::opt_text(final(state).cursor) == text::opt_text(page.info.end_cursor),
        text::opt_text(r.checkpoint) == text::opt_text(page.info.end_cursor),
        r.more == page.info.has_next_page,
        r.more ==> final(state).page_size == next_size(old(state).page_size, *page, max),
        !r.more ==> final(state).page_size == old(state).page_size,
        1 <= old(state).page_size <= max ==> 1 <= final(state).page_size <= max,
        r.pause == (if r.more {
            pause_of(
                pause_millis(
                    page.rate.complexity_remaining,
                    page.rate.requests_remaining,
                    page.rate.reset_epoch_ms,
                    now_ms,
                ),
            )
        } else {
            None
        }),
{
    state.cursor = page.info.end_cursor.clone();
    let checkpoint = page.info.end_cursor.clone();
    if !page.info.has_next_page {
        return PageStep { checkpoint, more: false, pause: None };
    }
    if let Some(c) = &page.cost {
        state.page_size = tuned_page_size(state.page_size, c, max);
    }
    let pause = backoff(
        page.rate.complexity_remaining,
        page.rate.requests_remaining,
        page.rate.reset_epoch_ms,
        now_ms,
    );
    PageStep { checkpoint, more: true, pause }
}

/// The size of the page that is asked for after the given pages.
pub open spec fn size_after(seed: usize, pages: Seq<PageOutcome>, max: usize) -> int
    decreases pages.len(),
{
    if pages.len() == 0 {
        clamped(seed as int, page_floor(max), page_limit(max))
    } else {
        next_size(size_after(seed, pages.drop_last(), max) as usize, pages.last(), max)
    }
}

/// The cap on page sizes is a hard one: no page of a stream is larger, and none is
/// empty.
pub proof fn lemma_cap(seed: usize, pages: Seq<PageOutcome>, max: usize)
    requires
        max >= 1,
    ensures
        1 <= size_after(seed, pages, max) <= max,
    decreases pages.len(),
{
    if pages.len() > 0 {
        lemma_cap(seed, pages.drop_last(), max);
    }
}

// ---------------------------------------------------------------------------
// Joining
// ---------------------------------------------------------------------------

/// Whether the id is there and one of those of the issues.
pub open spec fn is_imported(ids: Seq<Seq<char>>, id: Option<Seq<char>>) -> bool {
    id matches Some(i) && ids.contains(i)
}

fn imported(ids: &Vec<String>, id: &Option<String>) -> (r: bool)
    ensures
        r == is_imported(text::texts(ids@), text::opt_text(*id)),
{
    match id {
        Some(s) => {
            let ghost all = text::texts(ids@);
            let mut i: usize = 0;
            while i < ids.len()
                invariant
                    i <= ids@.len(),
                    *id == Some(*s),
                    all == text::texts(ids@),
                    forall|k: int| 0 <= k < i ==> #[trigger] all[k] != s@,
                decreases ids@.len() - i,
            {
                assert(all[i as int] == ids@[i as int]@);
                if text::str_eq(ids[i].as_str(), s.as_str()) {
                    return true;
                }
                i = i + 1;
            }
            false
        },
        None => false,
    }
}

/// The issues at both ends of a relation.
pub struct Ends {
    pub issue: Option<String>,
    pub related: Option<String>,
}

/// Whether a relation touches an imported issue.
pub open spec fn touches(ids: Seq<Seq<char>>, e: Ends) -> bool {
    is_imported(ids, text::opt_text(e.issue)) || is_imported(ids, text::opt_text(e.related))
}

/// Which relations touch an imported issue: relations can not be asked for by team.
pub fn touching(ids: &Vec<String>, ends: &Vec<Ends>) -> (r: Vec<bool>)
    ensures
        r@.len() == ends@.len(),
        forall|k: int| 0 <= k < r@.len() ==> (#[trigger] r@[k]) == touches(text::texts(ids@), ends@[k]),
{
    let mut out: Vec<bool> = Vec::new();
    let mut i: usize = 0;
    while i < ends.len()
        invariant
            i <= ends@.len(),
            out@.len() == i,
            forall|k: int|
                0 <= k < i ==> (#[trigger] out@[k]) == touches(text::texts(ids@), ends@[k]),
        decreases ends@.len() - i,
    {
        let keep = imported(ids, &ends[i].issue) || imported(ids, &ends[i].related);
        out.push(keep);
        i = i + 1;
    }
    out
}

/// How many of the attachments belong to an imported issue.
pub open spec fn attached_count(ids: Seq<Seq<char>>, v: Seq<Option<String>>) -> int
    decreases v.len(),
{
    if v.len() == 0 {
        0
    } else {
        let rest = attached_count(ids, v.drop_last());
        if is_imported(ids, text::opt_text(v.last())) {
            rest + 1
        } else {
            rest
        }
    }
}

/// Counts the attachments that belong to an imported issue.
pub fn count_attached(ids: &Vec<String>, issues: &Vec<Option<String>>) -> (r: usize)
    ensures
        r == attached_count(text::texts(ids@), issues@),
{
    let mut n: usize = 0;
    let mut i: usize = 0;
    assert(issues@.take(0) =~= seq![]);
    while i < issues.len()
        invariant
            i <= issues@.len(),
            n <= i,
            n == attached_count(text::texts(ids@), issues@.take(i as int)),
        decreases issues@.len() - i,
    {
        assert(issues@.take(i + 1).drop_last() =~= issues@.take(i as int));
        if imported(ids, &issues[i]) {
            n = n + 1;
        }
        i = i + 1;
    }
    assert(issues@.take(issues@.len() as int) =~= issues@);
    n
}

// ---------------------------------------------------------------------------
// Labels that are missing
// ---------------------------------------------------------------------------

/// The ids `rest` with those of the labels and of their groups.
pub open spec fn with_wanted(rest: Seq<Seq<char>>, v: Seq<LinearLabelRef>) -> Seq<Seq<char>>
    decreases v.len(),
{
    if v.len() == 0 {
        rest
    } else {
        let ids = with_text(with_wanted(rest, v.drop_last()), v.last().id@);
        match v.last().parent {
            Some(p) => with_text(ids, p.id@),
            None => ids,
        }
    }
}

/// The labels that issues refer to, and their groups, each once.
pub open spec fn wanted_labels(v: Seq<LinearIssue>) -> Seq<Seq<char>>
    decreases v.len(),
{
    if v.len() == 0 {
        seq![]
    } else {
        with_wanted(wanted_labels(v.drop_last()), v.last().labels.nodes@)
    }
}

/// Whether there is a label with the id.
pub open spec fn has_label(v: Seq<LinearLabelRef>, id: Seq<char>) -> bool {
    exists|i: int| 0 <= i < v.len() && (#[trigger] v[i]).id@ == id
}

/// Those of the ids for which there is no label.
pub open spec fn without_label(ids: Seq<Seq<char>>, v: Seq<LinearLabelRef>) -> Seq<Seq<char>>
    decreases ids.len(),
{
    if ids.len() == 0 {
        seq![]
    } else {
        let rest = without_label(ids.drop_last(), v);
        if has_label(v, ids.last()) {
            rest
        } else {
            rest.push(ids.last())
        }
    }
}

fn label_exists(v: &Vec<LinearLabelRef>, id: &str) -> (r: bool)
    ensures
        r == has_label(v@, id@),
{
    let mut i: usize = 0;
    while i < v.len()
        invariant
            i <= v@.len(),
            forall|k: int| 0 <= k < i ==> (#[trigger] v@[k]).id@ != id@,
        decreases v@.len() - i,
    {
        if text::str_eq(v[i].id.as_str(), id) {
            assert(v@[i as int].id@ == id@);
            return true;
        }
        i = i + 1;
    }
    false
}

fn collect_wanted(v: &Vec<LinearIssue>) -> (r: Vec<String>)
    ensures
        text::texts(r@) == wanted_labels(v@),
{
    let mut out: Vec<String> = Vec::new();
    let mut i: usize = 0;
    assert(v@.take(0) =~= seq![]);
    assert(text::texts(out@) =~= seq![]);
    while i < v.len()
        invariant
            i <= v@.len(),
            text::texts(out@) == wanted_labels(v@.take(i as int)),
        decreases v@.len() - i,
    {
        let nodes = &v[i].labels.nodes;
        let ghost before = text::texts(out@);
        let mut k: usize = 0;
        assert(nodes@.take(0) =~= seq![]);
        while k < nodes.len()
            invariant
                k <= nodes@.len(),
                text::texts(out@) == with_wanted(before, nodes@.take(k as int)),
            decreases nodes@.len() - k,
        {
            assert(nodes@.take(k + 1).drop_last() =~= nodes@.take(k as int));
            add_text(&mut out, nodes[k].id.as_str());
            if let Some(p) = &nodes[k].parent {
                add_text(&mut out, p.id.as_str());
            }
            k = k + 1;
        }
        assert(nodes@.take(nodes@.len() as int) =~= nodes@);
        assert(v@.take(i + 1).drop_last() =~= v@.take(i as int));
        i = i + 1;
    }
    assert(v@.take(v@.len() as int) =~= v@);
    out
}

/// The labels that issues refer to but that were not among those of the team.
pub fn missing_labels(issues: &Vec<LinearIssue>, labels: &Vec<LinearLabelRef>) -> (r: Vec<String>)
    ensures
        text::texts(r@) == without_label(wanted_labels(issues@), labels@),
{
    let wanted = collect_wanted(issues);
    let ghost ids = text::texts(wanted@);
    let mut out: Vec<String> = Vec::new();
    let mut i: usize = 0;
    assert(ids.take(0) =~= seq![]);
    assert(text::texts(out@) =~= seq![]);
    while i < wanted.len()
        invariant
            i <= wanted@.len(),
            ids == text::texts(wanted@),
            text::texts(out@) == without_label(ids.take(i as int), labels@),
        decreases wanted@.len() - i,
    {
        let ghost before = out@;
        assert(ids.take(i + 1).drop_last() =~= ids.take(i as int));
        assert(ids[i as int] == wanted@[i as int]@);
        if !label_exists(labels, wanted[i].as_str()) {
            out.push(wanted[i].clone());
            assert(text::texts(out@) =~= text::texts(before).push(ids[i as int]));
        }
        i = i + 1;
    }
    assert(ids.take(ids.len() as int) =~= ids);
    out
}

/// Once labels for all missing ids are added, every label that an issue refers to,
/// and its group, is there.
pub proof fn lemma_labels_complete(
    ids: Seq<Seq<char>>,
    v: Seq<LinearLabelRef>,
    more: Seq<LinearLabelRef>,
)
    requires
        forall|i: int|
            0 <= i < without_label(ids, v).len() ==> has_label(
                v + more,
                #[trigger] without_label(ids, v)[i],
            ),
    ensures
        forall|i: int| 0 <= i < ids.len() ==> has_label(v + more, #[trigger] ids[i]),
    decreases ids.len(),
{
    if ids.len() > 0 {
        let rest = without_label(ids.drop_last(), v);
        let all = without_label(ids, v);
        assert forall|i: int| 0 <= i < rest.len() implies has_label(v + more, #[trigger] rest[i]) by {
            assert(all[i] == rest[i]);
        }
        lemma_labels_complete(ids.drop_last(), v, more);
        assert forall|i: int| 0 <= i < ids.len() implies has_label(v + more, #[trigger] ids[i]) by {
            if i == ids.len() - 1 {
                if has_label(v, ids.last()) {
                    let k = choose|k: int| 0 <= k < v.len() && (#[trigger] v[k]).id@ == ids.last();
                    assert((v + more)[k].id@ == ids.last());
                } else {
                    assert(all[rest.len() as int] == ids.last());
                }
            } else {
                assert(ids.drop_last()[i] == ids[i]);
            }
        }
    }
}

/// A text in quotes, as a GraphQL literal.
pub open spec fn quoted(s: Seq<char>) -> Seq<char> {
    "\""@ + escaped(s, '"') + "\""@
}

/// The texts in quotes.
pub open spec fn all_quoted(v: Seq<Seq<char>>) -> Seq<Seq<char>> {
    v.map_values(|s: Seq<char>| quoted(s))
}

/// The query for labels by id.
pub open spec fn labels_query_of(ids: Seq<Seq<char>>) -> Seq<char> {
    "query($first:Int!,$after:String){ issueLabels(first:$first, after:$after, filter:{id:{in:["@
        + text::join_of(all_quoted(ids), ","@)
        + "]}}){ nodes{ id name color isGroup parent{id name} } pageInfo{ hasNextPage endCursor } } }"@
}

/// The query for labels by id.
pub fn labels_query(ids: &Vec<String>) -> (r: String)
    ensures
        r@ == labels_query_of(text::texts(ids@)),
{
    let mut literals: Vec<String> = Vec::new();
    let mut i: usize = 0;
    while i < ids.len()
        invariant
            i <= ids@.len(),
            literals@.len() == i,
            forall|k: int| 0 <= k < i ==> (#[trigger] literals@[k])@ == quoted(ids@[k]@),
        decreases ids@.len() - i,
    {
        literals.push("\"".to_owned().concat(escape(ids[i].as_str()).as_str()).concat("\""));
        i = i + 1;
    }
    assert(text::texts(literals@) =~= all_quoted(text::texts(ids@)));
    let list = text::join(&literals, ",");
    "query($first:Int!,$after:String){ issueLabels(first:$first, after:$after, filter:{id:{in:[".to_owned().concat(
        list.as_str(),
    ).concat(
        "]}}){ nodes{ id name color isGroup parent{id name} } pageInfo{ hasNextPage endCursor } } }",
    )
}

/// The page size for labels by id.
pub fn labels_page_size(missing: usize) -> (r: usize)
    ensures
        r == clamped(missing as int, 1, 250),
{
    if missing < 1 {
        1
    } else if missing > 250 {
        250
    } else {
        missing
    }
}

/// Adds a label, if there is none with its id.
pub fn add_label(labels: &mut Vec<LinearLabelRef>, l: LinearLabelRef)
    ensures
        final(labels)@ == (if has_label(old(labels)@, l.id@) {
            old(labels)@
        } else {
            old(labels)@.push(l)
        }),
{
    if !label_exists(labels, l.id.as_str()) {
        labels.push(l);
    }
}

// ---------------------------------------------------------------------------
// Sizes and the summary
// ---------------------------------------------------------------------------

/// The size of a downloaded attachment: the last one given for its id.
pub open spec fn size_of(sizes: Seq<(String, usize)>, id: Seq<char>) -> Option<usize>
    decreases sizes.len(),
{
    if sizes.len() == 0 {
        None
    } else if sizes.last().0@ == id {
        Some(sizes.last().1)
    } else {
        size_of(sizes.drop_last(), id)
    }
}

/// An attachment with its real size, where it was downloaded and the size is one
/// that it can have.
pub open spec fn sized(a: ExportAttachment, sizes: Seq<(String, usize)>) -> ExportAttachment {
    match size_of(sizes, a.id@) {
        Some(n) => if n <= i64::MAX {
            ExportAttachment { size_bytes: n as i64, ..a }
        } else {
            a
        },
        None => a,
    }
}

fn find_size(sizes: &Vec<(String, usize)>, id: &str) -> (r: Option<usize>)
    ensures
        r == size_of(sizes@, id@),
{
    let ghost all = sizes@;
    let mut n: usize = sizes.len();
    assert(all.take(n as int) =~= all);
    while n > 0
        invariant
            n <= all.len(),
            all == sizes@,
            size_of(all, id@) == size_of(all.take(n as int), id@),
        decreases n,
    {
        assert(all.take(n as int).drop_last() =~= all.take(n - 1));
        if text::str_eq(sizes[n - 1].0.as_str(), id) {
            return Some(sizes[n - 1].1);
        }
        n = n - 1;
    }
    None
}

fn set_size(a: &mut ExportAttachment, n: i64)
    ensures
        *final(a) == (ExportAttachment { size_bytes: n, ..*old(a) }),
{
    a.size_bytes = n;
}

/// Fills in the real sizes of the attachments that were downloaded.
pub fn backfill_sizes(attachments: &mut Vec<ExportAttachment>, sizes: &Vec<(String, usize)>)
    ensures
        final(attachments)@ == old(attachments)@.map_values(
            |a: ExportAttachment| sized(a, sizes@),
        ),
{
    let ghost was = attachments@;
    let mut i: usize = 0;
    while i < attachments.len()
        invariant
            i <= attachments@.len(),
            attachments@.len() == was.len(),
            forall|k: int| 0 <= k < i ==> (#[trigger] attachments@[k]) == sized(was[k], sizes@),
            forall|k: int| i <= k < was.len() ==> (#[trigger] attachments@[k]) == was[k],
        decreases attachments@.len() - i,
    {
        let size = find_size(sizes, attachments[i].id.as_str());
        if let Some(n) = size {
            if n as u64 <= i64::MAX as u64 {
                set_size(&mut attachments[i], n as i64);
            }
        }
        i = i + 1;
    }
    assert(attachments@ =~= was.map_values(|a: ExportAttachment| sized(a, sizes@)));
}

/// How many entities were fetched.
pub struct StreamCounts {
    pub issues: usize,
    pub comments: usize,
    pub attachments_scanned: usize,
    pub issue_labels: usize,
    pub workflow_states: usize,
    pub cycles: usize,
    pub projects: usize,
    pub documents: usize,
    pub users: usize,
    pub issue_relations: usize,
}

/// The greater of two numbers.
pub open spec fn greater(a: int, b: int) -> int {
    if a >= b {
        a
    } else {
        b
    }
}

/// A line of the summary.
pub open spec fn line(label: Seq<char>, n: int) -> Seq<char> {
    label + text::decimal(n as nat)
}

impl StreamCounts {
    /// The summary of a fetch.
    pub open spec fn summary(self, attachments: int, items: int, downloaded: int) -> Seq<char> {
        "Linear import summary:\n"@ + line("  issues:          "@, self.issues as int) + line(
            "\n  comments:        "@,
            self.comments as int,
        ) + line("\n  issueLabels:     "@, self.issue_labels as int) + line(
            "\n  workflowStates:  "@,
            self.workflow_states as int,
        ) + line("\n  cycles:          "@, self.cycles as int) + line(
            "\n  projects:        "@,
            self.projects as int,
        ) + line("\n  documents:       "@, self.documents as int) + line(
            "\n  users:           "@,
            self.users as int,
        ) + line("\n  issueRelations:  "@, self.issue_relations as int)
            + " (touching imported issues)"@ + line(
            "\n  attachments:     "@,
            greater(self.attachments_scanned as int, attachments),
        ) + line(" referenced inline → "@, downloaded) + line(" downloaded ("@, attachments)
            + " in manifest)"@ + line("\n  items in export: "@, items)
    }

    /// The summary of a fetch.
    pub fn render(&self, export: &SpaceExport, downloaded: usize) -> (r: String)
        ensures
            r@ == self.summary(
                export.attachments@.len() as int,
                export.items@.len() as int,
                downloaded as int,
            ),
    {
        let listed: usize = export.attachments.len();
        let inline: usize = if self.attachments_scanned >= listed {
            self.attachments_scanned
        } else {
            listed
        };
        let mut out = "Linear import summary:\n".to_owned();
        put_line(&mut out, "  issues:          ", self.issues);
        put_line(&mut out, "\n  comments:        ", self.comments);
        put_line(&mut out, "\n  issueLabels:     ", self.issue_labels);
        put_line(&mut out, "\n  workflowStates:  ", self.workflow_states);
        put_line(&mut out, "\n  cycles:          ", self.cycles);
        put_line(&mut out, "\n  projects:        ", self.projects);
        put_line(&mut out, "\n  documents:       ", self.documents);
        put_line(&mut out, "\n  users:           ", self.users);
        put_line(&mut out, "\n  issueRelations:  ", self.issue_relations);
        out.append(" (touching imported issues)");
        put_line(&mut out, "\n  attachments:     ", inline);
        put_line(&mut out, " referenced inline → ", downloaded);
        put_line(&mut out, " downloaded (", listed);
        out.append(" in manifest)");
        put_line(&mut out, "\n  items in export: ", export.items.len());
        out
    }
}

/// Appends a label and a number.
pub(crate) fn put_line(out: &mut String, label: &str, n: usize)
    ensures
        final(out)@ == old(out)@ + line(label@, n as int),
{
    let ghost before = out@;
    out.append(label);
    out.append(text::nat_text(n as u64).as_str());
    assert(out@ =~= before + line(label@, n as int));
}

} // verus!
