//! Space import: an export to Yjs documents.

use vstd::prelude::*;
use vstd::string::StringExecFns;

use crate::text;

pub mod convert;
pub mod documents;
pub mod fetch;
pub mod fetch_laws;
pub mod items;
pub mod jira_fetch;
pub mod laws;
pub mod linear_fetch;
pub mod losses;
pub mod query;
pub mod space;
pub mod space_config;

pub use crate::import::space::{
    build_space_from_export, try_build_space_from_export, ImportBuildResult, ImportMaps,
};

verus! {

/// How many characters of `s` fit into `n` bytes.
pub open spec fn fitting(s: Seq<char>, n: int) -> int
    decreases s.len(),
{
    if s.len() == 0 || text::utf8_len(s) <= n {
        s.len() as int
    } else {
        fitting(s.drop_last(), n)
    }
}

/// `s` cut to at most `n` bytes, with an ellipsis where anything was cut.
pub open spec fn truncated(s: Seq<char>, n: int) -> Seq<char> {
    if text::utf8_len(s) <= n {
        s
    } else {
        s.take(fitting(s, n)) + "…"@
    }
}

/// Cuts `s` to at most `n` bytes for a message, and appends `…` where it was
/// longer. A character is never split.
pub fn truncate(s: &str, n: usize) -> (r: String)
    ensures
        r@ == truncated(s@, n as int),
{
    let chars = text::to_chars(s);
    let ghost all = s@;
    let mut len: usize = s.as_bytes().len();
    proof {
        text::lemma_utf8_len(all);
    }
    if len <= n {
        return s.to_owned();
    }
    let mut end: usize = chars.len();
    assert(all.take(end as int) =~= all);
    while len > n
        invariant
            end <= all.len(),
            chars@ == all,
            len == text::utf8_len(all.take(end as int)),
            fitting(all, n as int) == fitting(all.take(end as int), n as int),
        decreases end,
    {
        assert(end > 0);
        assert(all.take(end as int).drop_last() =~= all.take(end - 1));
        end = end - 1;
        len = len - text::width(chars[end]);
    }
    assert(fitting(all, n as int) == end);
    assert(all.take(end as int) =~= all.subrange(0, end as int));
    text::to_text(vstd::slice::slice_subrange(chars.as_slice(), 0, end)).concat("…")
}

/// What was cut fits, and one character more would not.
pub proof fn lemma_fitting(s: Seq<char>, n: int)
    requires
        n >= 0,
    ensures
        0 <= fitting(s, n) <= s.len(),
        text::utf8_len(s.take(fitting(s, n))) <= n,
        fitting(s, n) < s.len() ==> text::utf8_len(s.take(fitting(s, n) + 1)) > n,
    decreases s.len(),
{
    if s.len() == 0 || text::utf8_len(s) <= n {
        assert(s.take(s.len() as int) =~= s);
    } else {
        let t = s.drop_last();
        lemma_fitting(t, n);
        let k = fitting(t, n);
        assert(s.take(k) =~= t.take(k));
        if k < t.len() {
            assert(s.take(k + 1) =~= t.take(k + 1));
        } else {
            assert(s.take(k + 1) =~= s);
        }
    }
}

/// A text that fits is left as it is; of another as many characters stay as fit into the
/// given number of bytes, and an ellipsis follows them.
pub proof fn lemma_truncated(s: Seq<char>, n: int, k: int)
    requires
        n >= 0,
        0 <= k < s.len(),
        text::utf8_len(s) > n,
        text::utf8_len(s.take(k)) <= n,
        text::utf8_len(s.take(k + 1)) > n,
    ensures
        truncated(s, n) == s.take(k) + "…"@,
        forall|t: Seq<char>| #[trigger] text::utf8_len(t) <= n ==> truncated(t, n) == t,
{
    lemma_fitting(s, n);
    let f = fitting(s, n);
    if f == s.len() {
        assert(s.take(f) =~= s);
    } else if f < k {
        lemma_widths(s, f + 1, k);
    } else if k < f {
        lemma_widths(s, k + 1, f);
    }
}

proof fn lemma_widths(s: Seq<char>, i: int, j: int)
    requires
        0 <= i <= j <= s.len(),
    ensures
        text::utf8_len(s.take(i)) <= text::utf8_len(s.take(j)),
    decreases j - i,
{
    if i < j {
        lemma_widths(s, i, j - 1);
        assert(s.take(j).drop_last() =~= s.take(j - 1));
    }
}

} // verus!
