//! Text as a sequence of characters.
//!
//! The parsers of this crate work on slices of characters, so that a position
//! is a number of characters and a piece of text is a subrange.

use vstd::prelude::*;
use vstd::slice::slice_subrange;
use vstd::string::StringExecFns;
use vstd::string::StrSliceExecFns;

verus! {

/// `String::push` appends the character.
pub assume_specification[ String::push ](s: &mut String, c: char)
    ensures
        final(s)@ == old(s)@.push(c),
;

/// Whether two texts hold the same characters: whether their bytes are the same.
pub(crate) fn str_eq(a: &str, b: &str) -> (r: bool)
    ensures
        r == (a@ == b@),
{
    proof {
        vstd::utf8::encode_utf8_decode_utf8(a@);
        vstd::utf8::encode_utf8_decode_utf8(b@);
    }
    let (x, y) = (a.as_bytes(), b.as_bytes());
    if x.len() != y.len() {
        return false;
    }
    let mut i: usize = 0;
    while i < x.len()
        invariant
            i <= x@.len(),
            x@.len() == y@.len(),
            x@ == vstd::utf8::encode_utf8(a@),
            y@ == vstd::utf8::encode_utf8(b@),
            forall|k: int| 0 <= k < i ==> x@[k] == y@[k],
        decreases x@.len() - i,
    {
        if x[i] != y[i] {
            return false;
        }
        i = i + 1;
    }
    assert(x@ =~= y@);
    true
}

/// How `{:?}` writes a text: in quotes, with escapes.
pub uninterp spec fn debug_text(s: Seq<char>) -> Seq<char>;

/// `Debug` of `str`: a function of the characters. Which of them are escaped, and
/// how, is left to its name.
#[verifier::external_body]
pub(crate) fn debug(s: &str) -> (r: String)
    ensures
        r@ == debug_text(s@),
{
    format!("{:?}", s)
}

/// The characters of `s`.
pub fn to_chars(s: &str) -> (r: Vec<char>)
    ensures
        r@ == s@,
{
    let mut out: Vec<char> = Vec::new();
    for c in it: s.chars()
        invariant
            it.seq() == s@,
            out@ == s@.take(it.index() as int),
    {
        out.push(c);
        assert(s@.take(it.index() + 1) =~= s@.take(it.index() as int).push(c));
    }
    assert(s@.take(s@.len() as int) =~= s@);
    out
}

/// The string with the characters of `s`.
pub fn to_text(s: &[char]) -> (r: String)
    ensures
        r@ == s@,
{
    let mut out = String::new();
    let mut i: usize = 0;
    while i < s.len()
        invariant
            i <= s.len(),
            out@ == s@.take(i as int),
        decreases s.len() - i,
    {
        out.push(s[i]);
        assert(s@.take(i + 1) =~= s@.take(i as int).push(s@[i as int]));
        i = i + 1;
    }
    assert(s@.take(s@.len() as int) =~= s@);
    out
}

// ---------------------------------------------------------------------------
// Prefixes and suffixes
// ---------------------------------------------------------------------------

/// Whether `s` begins with `p`.
pub fn starts_with(s: &[char], p: &str) -> (r: bool)
    ensures
        r == p@.is_prefix_of(s@),
{
    let n: usize = p.unicode_len();
    if n > s.len() {
        return false;
    }
    let mut i: usize = 0;
    while i < n
        invariant
            i <= n,
            n == p@.len(),
            n <= s@.len(),
            forall|k: int| 0 <= k < i ==> s@[k] == p@[k],
        decreases n - i,
    {
        if s[i] != p.get_char(i) {
            assert(s@.subrange(0, n as int)[i as int] != p@[i as int]);
            return false;
        }
        i = i + 1;
    }
    assert(s@.subrange(0, n as int) =~= p@);
    true
}

/// What follows the prefix `p` of `s`, if `s` begins with `p`.
pub open spec fn after_prefix(s: Seq<char>, p: Seq<char>) -> Option<Seq<char>> {
    if p.is_prefix_of(s) {
        Some(s.skip(p.len() as int))
    } else {
        None
    }
}

/// The view of an optional piece of text.
pub open spec fn opt_slice(o: Option<&[char]>) -> Option<Seq<char>> {
    match o {
        Some(s) => Some(s@),
        None => None,
    }
}

pub fn strip_prefix<'a>(s: &'a [char], p: &str) -> (r: Option<&'a [char]>)
    ensures
        opt_slice(r) == after_prefix(s@, p@),
{
    if starts_with(s, p) {
        Some(slice_subrange(s, p.unicode_len(), s.len()))
    } else {
        None
    }
}

/// Whether `s` ends with the character `c`.
pub open spec fn ends_with_char(s: Seq<char>, c: char) -> bool {
    s.len() > 0 && s.last() == c
}

/// Whether `s` starts with the character `c`.
pub open spec fn starts_with_char(s: Seq<char>, c: char) -> bool {
    s.len() > 0 && s[0] == c
}

/// Whether the whole of `s` is `p`.
pub fn equals(s: &[char], p: &str) -> (r: bool)
    ensures
        r == (s@ == p@),
{
    let n: usize = p.unicode_len();
    if n != s.len() {
        return false;
    }
    let b = starts_with(s, p);
    proof {
        assert(s@.subrange(0, n as int) =~= s@);
    }
    b
}

// ---------------------------------------------------------------------------
// White space
// ---------------------------------------------------------------------------

/// The characters with Unicode's `White_Space` property.
pub open spec fn is_white(c: char) -> bool {
    let n = c as u32;
    ||| 0x9 <= n <= 0xd
    ||| n == 0x20
    ||| n == 0x85
    ||| n == 0xa0
    ||| n == 0x1680
    ||| 0x2000 <= n <= 0x200a
    ||| n == 0x2028
    ||| n == 0x2029
    ||| n == 0x202f
    ||| n == 0x205f
    ||| n == 0x3000
}

pub fn char_is_white(c: char) -> (r: bool)
    ensures
        r == is_white(c),
{
    let n: u32 = c as u32;
    (0x9 <= n && n <= 0xd) || n == 0x20 || n == 0x85 || n == 0xa0 || n == 0x1680 || (0x2000 <= n
        && n <= 0x200a) || n == 0x2028 || n == 0x2029 || n == 0x202f || n == 0x205f || n == 0x3000
}

/// `s` without its leading white space.
pub open spec fn trim_start_of(s: Seq<char>) -> Seq<char>
    decreases s.len(),
{
    if s.len() > 0 && is_white(s[0]) {
        trim_start_of(s.skip(1))
    } else {
        s
    }
}

/// `s` without its trailing white space.
pub open spec fn trim_end_of(s: Seq<char>) -> Seq<char>
    decreases s.len(),
{
    if s.len() > 0 && is_white(s.last()) {
        trim_end_of(s.drop_last())
    } else {
        s
    }
}

/// `s` without the white space at both ends.
pub open spec fn trim_of(s: Seq<char>) -> Seq<char> {
    trim_end_of(trim_start_of(s))
}

/// A trimmed text begins and ends with no white space, and is trimmed itself; its
/// characters are some of those of `s`, one after the other.
pub proof fn lemma_trimmed(s: Seq<char>)
    ensures
        trim_of(trim_of(s)) == trim_of(s),
        trim_of(s).len() > 0 ==> !is_white(trim_of(s)[0]) && !is_white(trim_of(s).last()),
        forall|c: char| trim_of(s).contains(c) ==> s.contains(c),
    decreases s.len(),
{
    lemma_trim_start(s);
    lemma_trim_end(trim_start_of(s));
}

proof fn lemma_trim_start(s: Seq<char>)
    ensures
        trim_start_of(s).len() > 0 ==> !is_white(trim_start_of(s)[0]),
        forall|c: char| trim_start_of(s).contains(c) ==> s.contains(c),
    decreases s.len(),
{
    if s.len() > 0 && is_white(s[0]) {
        lemma_trim_start(s.skip(1));
        assert forall|c: char| s.skip(1).contains(c) implies s.contains(c) by {
            let k = choose|k: int| 0 <= k < s.skip(1).len() && s.skip(1)[k] == c;
            assert(s[k + 1] == c);
        }
    }
}

/// What trimming the end leaves: a beginning of `s` that ends with no white space.
pub proof fn lemma_trim_end(s: Seq<char>)
    ensures
        trim_end_of(s).is_prefix_of(s),
        trim_end_of(s).len() > 0 ==> !is_white(trim_end_of(s).last()),
        trim_end_of(s).len() > 0 ==> trim_end_of(s)[0] == s[0],
        forall|c: char| trim_end_of(s).contains(c) ==> s.contains(c),
        trim_end_of(trim_end_of(s)) == trim_end_of(s),
    decreases s.len(),
{
    if s.len() > 0 && is_white(s.last()) {
        lemma_trim_end(s.drop_last());
        assert forall|c: char| s.drop_last().contains(c) implies s.contains(c) by {
            let k = choose|k: int| 0 <= k < s.drop_last().len() && s.drop_last()[k] == c;
            assert(s[k] == c);
        }
    }
}

pub fn trim_start<'a>(s: &'a [char]) -> (r: &'a [char])
    ensures
        r@ == trim_start_of(s@),
{
    let mut i: usize = 0;
    assert(s@.skip(0) =~= s@);
    while i < s.len() && char_is_white(s[i])
        invariant
            i <= s.len(),
            trim_start_of(s@) == trim_start_of(s@.skip(i as int)),
        decreases s.len() - i,
    {
        assert(s@.skip(i as int).skip(1) =~= s@.skip(i + 1));
        i = i + 1;
    }
    assert(s@.skip(i as int) =~= s@.subrange(i as int, s@.len() as int));
    slice_subrange(s, i, s.len())
}

pub fn trim_end<'a>(s: &'a [char]) -> (r: &'a [char])
    ensures
        r@ == trim_end_of(s@),
{
    let mut n: usize = s.len();
    assert(s@.take(n as int) =~= s@);
    while n > 0 && char_is_white(s[n - 1])
        invariant
            n <= s.len(),
            trim_end_of(s@) == trim_end_of(s@.take(n as int)),
        decreases n,
    {
        assert(s@.take(n as int).drop_last() =~= s@.take(n - 1));
        n = n - 1;
    }
    slice_subrange(s, 0, n)
}

pub fn trim<'a>(s: &'a [char]) -> (r: &'a [char])
    ensures
        r@ == trim_of(s@),
{
    trim_end(trim_start(s))
}

// ---------------------------------------------------------------------------
// Searching
// ---------------------------------------------------------------------------

/// Whether `p` stands in `s` at position `i`.
pub open spec fn occurs_at(s: Seq<char>, p: Seq<char>, i: int) -> bool {
    0 <= i && i + p.len() <= s.len() && s.subrange(i, i + p.len()) == p
}

/// The first position from `i` on at which `p` stands in `s`.
pub open spec fn find_from(s: Seq<char>, p: Seq<char>, i: int) -> Option<int>
    decreases s.len() + 1 - i,
{
    if i < 0 || i + p.len() > s.len() {
        None
    } else if occurs_at(s, p, i) {
        Some(i)
    } else {
        find_from(s, p, i + 1)
    }
}

/// The first position at which `p` stands in `s`.
pub open spec fn find_of(s: Seq<char>, p: Seq<char>) -> Option<int> {
    find_from(s, p, 0)
}

/// The view of an optional position.
pub open spec fn opt_pos(o: Option<usize>) -> Option<int> {
    match o {
        Some(n) => Some(n as int),
        None => None,
    }
}

/// What a search finds: an occurrence, and none before it.
pub proof fn lemma_find_from(s: Seq<char>, p: Seq<char>, i: int)
    requires
        0 <= i,
    ensures
        match find_from(s, p, i) {
            Some(k) => i <= k && occurs_at(s, p, k) && forall|j: int|
                i <= j < k ==> !occurs_at(s, p, j),
            None => forall|j: int| i <= j ==> !occurs_at(s, p, j),
        },
    decreases s.len() + 1 - i,
{
    if i + p.len() > s.len() {
    } else if occurs_at(s, p, i) {
    } else {
        lemma_find_from(s, p, i + 1);
    }
}

pub fn find(s: &[char], p: &str) -> (r: Option<usize>)
    ensures
        opt_pos(r) == find_of(s@, p@),
        r is Some ==> occurs_at(s@, p@, r->0 as int),
{
    let n: usize = p.unicode_len();
    if n > s.len() {
        return None;
    }
    let mut i: usize = 0;
    while i <= s.len() - n
        invariant
            n == p@.len(),
            n <= s@.len(),
            i <= s@.len() - n + 1,
            find_of(s@, p@) == find_from(s@, p@, i as int),
        decreases s.len() - i,
    {
        let rest = slice_subrange(s, i, s.len());
        if starts_with(rest, p) {
            assert(rest@.subrange(0, n as int) =~= s@.subrange(i as int, i + n));
            return Some(i);
        }
        assert(!occurs_at(s@, p@, i as int)) by {
            assert(rest@.subrange(0, n as int) =~= s@.subrange(i as int, i + n));
        }
        if i == s.len() - n {
            assert(find_from(s@, p@, i + 1) is None);
            return None;
        }
        i = i + 1;
    }
    None
}

/// The first position from `i` on whose character is one of `set`.
pub open spec fn find_any_from(s: Seq<char>, set: Seq<char>, i: int) -> Option<int>
    decreases s.len() - i,
{
    if i < 0 || i >= s.len() {
        None
    } else if set.contains(s[i]) {
        Some(i)
    } else {
        find_any_from(s, set, i + 1)
    }
}

/// The first position whose character is one of `set`.
pub open spec fn find_any_of(s: Seq<char>, set: Seq<char>) -> Option<int> {
    find_any_from(s, set, 0)
}

pub proof fn lemma_find_any_from(s: Seq<char>, set: Seq<char>, i: int)
    requires
        0 <= i,
    ensures
        match find_any_from(s, set, i) {
            Some(k) => i <= k < s.len() && set.contains(s[k]) && forall|j: int|
                i <= j < k ==> !set.contains(#[trigger] s[j]),
            None => forall|j: int| i <= j < s.len() ==> !set.contains(#[trigger] s[j]),
        },
    decreases s.len() - i,
{
    if i >= s.len() {
    } else if set.contains(s[i]) {
    } else {
        lemma_find_any_from(s, set, i + 1);
    }
}

/// Whether `c` is one of the characters of `set`.
pub fn one_of(c: char, set: &str) -> (r: bool)
    ensures
        r == set@.contains(c),
{
    let n: usize = set.unicode_len();
    let mut i: usize = 0;
    while i < n
        invariant
            i <= n,
            n == set@.len(),
            forall|k: int| 0 <= k < i ==> set@[k] != c,
        decreases n - i,
    {
        if set.get_char(i) == c {
            assert(set@[i as int] == c);
            return true;
        }
        i = i + 1;
    }
    false
}

pub fn find_any(s: &[char], set: &str) -> (r: Option<usize>)
    ensures
        opt_pos(r) == find_any_of(s@, set@),
        r is Some ==> r->0 < s@.len(),
{
    let mut i: usize = 0;
    while i < s.len()
        invariant
            i <= s.len(),
            find_any_of(s@, set@) == find_any_from(s@, set@, i as int),
        decreases s.len() - i,
    {
        if one_of(s[i], set) {
            return Some(i);
        }
        i = i + 1;
    }
    None
}

/// The first position of the character `c`.
pub open spec fn find_char_of(s: Seq<char>, c: char) -> Option<int> {
    find_any_of(s, seq![c])
}

pub fn find_char(s: &[char], c: char) -> (r: Option<usize>)
    ensures
        opt_pos(r) == find_char_of(s@, c),
        r is Some ==> r->0 < s@.len() && s@[r->0 as int] == c,
        r is Some <==> s@.contains(c),
{
    let ghost set = seq![c];
    let mut i: usize = 0;
    while i < s.len()
        invariant
            i <= s.len(),
            set == seq![c],
            find_char_of(s@, c) == find_any_from(s@, set, i as int),
            forall|k: int| 0 <= k < i ==> s@[k] != c,
        decreases s.len() - i,
    {
        proof {
            assert(set[0] == c);
            assert(set.contains(s@[i as int]) <==> s@[i as int] == c);
        }
        if s[i] == c {
            return Some(i);
        }
        i = i + 1;
    }
    None
}

/// The last position before `n` of the character `c`.
pub open spec fn rfind_char_before(s: Seq<char>, c: char, n: int) -> Option<int>
    decreases n,
{
    if n <= 0 {
        None
    } else if s[n - 1] == c {
        Some(n - 1)
    } else {
        rfind_char_before(s, c, n - 1)
    }
}

/// The last position of the character `c`.
pub open spec fn rfind_char_of(s: Seq<char>, c: char) -> Option<int> {
    rfind_char_before(s, c, s.len() as int)
}

pub fn rfind_char(s: &[char], c: char) -> (r: Option<usize>)
    ensures
        opt_pos(r) == rfind_char_of(s@, c),
        r is Some ==> r->0 < s@.len() && s@[r->0 as int] == c,
{
    let mut n: usize = s.len();
    while n > 0
        invariant
            n <= s.len(),
            rfind_char_of(s@, c) == rfind_char_before(s@, c, n as int),
        decreases n,
    {
        if s[n - 1] == c {
            return Some(n - 1);
        }
        n = n - 1;
    }
    None
}

pub fn contains_char(s: &[char], c: char) -> (r: bool)
    ensures
        r == s@.contains(c),
{
    match find_char(s, c) {
        Some(_) => true,
        None => false,
    }
}

// ---------------------------------------------------------------------------
// Lines
// ---------------------------------------------------------------------------

/// A line without the carriage return that ends it.
pub open spec fn without_cr(s: Seq<char>) -> Seq<char> {
    if ends_with_char(s, '\r') {
        s.drop_last()
    } else {
        s
    }
}

/// The lines of `s`: a line ends with a line feed or with a carriage return and
/// a line feed, and neither belongs to it. The last line need not be ended.
pub open spec fn lines_of(s: Seq<char>) -> Seq<Seq<char>>
    decreases s.len(),
{
    if s.len() == 0 {
        seq![]
    } else {
        match find_char_of(s, '\n') {
            Some(i) => if 0 <= i < s.len() {
                seq![without_cr(s.take(i))] + lines_of(s.skip(i + 1))
            } else {
                seq![s]
            },
            None => seq![s],
        }
    }
}

/// The views of a list of pieces of text.
pub open spec fn slices(v: Seq<&[char]>) -> Seq<Seq<char>> {
    v.map_values(|s: &[char]| s@)
}

/// The views of a list of strings.
pub open spec fn texts(v: Seq<String>) -> Seq<Seq<char>> {
    v.map_values(|s: String| s@)
}

/// The view of an optional string.
pub open spec fn opt_text(o: Option<String>) -> Option<Seq<char>> {
    match o {
        Some(s) => Some(s@),
        None => None,
    }
}

/// There are no more lines than characters.
pub proof fn lemma_lines_len(s: Seq<char>)
    ensures
        lines_of(s).len() <= s.len(),
    decreases s.len(),
{
    if s.len() > 0 {
        if let Some(i) = find_char_of(s, '\n') {
            if 0 <= i < s.len() {
                lemma_lines_len(s.skip(i + 1));
            }
        }
    }
}

pub fn lines<'a>(s: &'a [char]) -> (r: Vec<&'a [char]>)
    ensures
        slices(r@) == lines_of(s@),
{
    let mut out: Vec<&'a [char]> = Vec::new();
    let mut rest: &'a [char] = s;
    assert(slices(out@) =~= seq![]);
    assert(seq![] + lines_of(s@) =~= lines_of(s@));
    while rest.len() > 0
        invariant
            slices(out@) + lines_of(rest@) == lines_of(s@),
        decreases rest.len(),
    {
        let ghost before = out@;
        match find_char(rest, '\n') {
            Some(i) => {
                let line = slice_subrange(rest, 0, i);
                let line = if line.len() > 0 && line[line.len() - 1] == '\r' {
                    assert(rest@.take(i as int).drop_last() =~= line@.subrange(
                        0,
                        line@.len() - 1,
                    ));
                    slice_subrange(line, 0, line.len() - 1)
                } else {
                    line
                };
                let ghost tail = rest@.skip(i + 1);
                assert(line@ =~= without_cr(rest@.take(i as int)));
                assert(tail =~= rest@.subrange(i + 1, rest@.len() as int));
                rest = slice_subrange(rest, i + 1, rest.len());
                out.push(line);
                assert(slices(out@) =~= slices(before).push(line@));
                assert(slices(before) + (seq![line@] + lines_of(tail)) =~= slices(before).push(
                    line@,
                ) + lines_of(tail));
            },
            None => {
                out.push(rest);
                assert(slices(out@) =~= slices(before).push(rest@));
                rest = slice_subrange(rest, 0, 0);
                assert(slices(out@) + lines_of(rest@) =~= slices(out@));
            },
        }
    }
    assert(slices(out@) + lines_of(rest@) =~= slices(out@));
    out
}

/// The parts of `s` between the characters `c`.
pub open spec fn split_of(s: Seq<char>, c: char) -> Seq<Seq<char>>
    decreases s.len(),
{
    match find_char_of(s, c) {
        Some(i) => if 0 <= i < s.len() {
            seq![s.take(i)] + split_of(s.skip(i + 1), c)
        } else {
            seq![s]
        },
        None => seq![s],
    }
}

pub fn split<'a>(s: &'a [char], c: char) -> (r: Vec<&'a [char]>)
    ensures
        slices(r@) == split_of(s@, c),
{
    let mut out: Vec<&'a [char]> = Vec::new();
    let mut rest: &'a [char] = s;
    assert(slices(out@) =~= seq![]);
    assert(seq![] + split_of(s@, c) =~= split_of(s@, c));
    let mut more = true;
    while more
        invariant
            more ==> slices(out@) + split_of(rest@, c) == split_of(s@, c),
            !more ==> slices(out@) == split_of(s@, c),
        decreases rest.len(),
            (if more {
                1int
            } else {
                0
            }),
    {
        let ghost before = out@;
        match find_char(rest, c) {
            Some(i) => {
                let part = slice_subrange(rest, 0, i);
                let ghost tail = rest@.skip(i + 1);
                let n: usize = rest.len();
                assert(tail =~= rest@.subrange(i + 1, n as int));
                assert(part@ =~= rest@.take(i as int));
                rest = slice_subrange(rest, i + 1, n);
                out.push(part);
                assert(slices(out@) =~= slices(before).push(part@));
                assert(slices(before) + (seq![part@] + split_of(tail, c)) =~= slices(before).push(
                    part@,
                ) + split_of(tail, c));
            },
            None => {
                out.push(rest);
                assert(slices(out@) =~= slices(before) + seq![rest@]);
                more = false;
            },
        }
    }
    out
}

/// The parts of `v` with `sep` between them.
pub open spec fn join_of(v: Seq<Seq<char>>, sep: Seq<char>) -> Seq<char>
    decreases v.len(),
{
    if v.len() == 0 {
        seq![]
    } else if v.len() == 1 {
        v[0]
    } else {
        join_of(v.drop_last(), sep) + sep + v.last()
    }
}

/// Where a character is first found.
proof fn lemma_find_char(s: Seq<char>, c: char)
    ensures
        match find_char_of(s, c) {
            Some(k) => 0 <= k < s.len() && s[k] == c && forall|j: int|
                0 <= j < k ==> #[trigger] s[j] != c,
            None => forall|j: int| 0 <= j < s.len() ==> #[trigger] s[j] != c,
        },
{
    lemma_find_any_from(s, seq![c], 0);
    assert(seq![c][0] == c);
}

/// The first position is where `c` stands and nowhere before it.
pub proof fn lemma_find_char_at(s: Seq<char>, c: char, i: int)
    requires
        0 <= i < s.len(),
        s[i] == c,
        forall|j: int| 0 <= j < i ==> #[trigger] s[j] != c,
    ensures
        find_char_of(s, c) == Some(i),
{
    lemma_find_char(s, c);
}

/// The parts of a text hold none of the characters at which it was split.
pub proof fn lemma_split_parts(s: Seq<char>, c: char)
    ensures
        forall|i: int| 0 <= i < split_of(s, c).len() ==> !(#[trigger] split_of(s, c)[i]).contains(c),
    decreases s.len(),
{
    lemma_find_char(s, c);
    if let Some(k) = find_char_of(s, c) {
        lemma_split_parts(s.skip(k + 1), c);
        let rest = split_of(s.skip(k + 1), c);
        assert forall|i: int| 0 <= i < split_of(s, c).len() implies !(#[trigger] split_of(
            s,
            c,
        )[i]).contains(c) by {
            if i > 0 {
                assert(split_of(s, c)[i] == rest[i - 1]);
            }
        }
    }
}

/// A part behind one more `c` is one part more.
proof fn lemma_split_push(s: Seq<char>, c: char, part: Seq<char>)
    requires
        !part.contains(c),
    ensures
        split_of(s + seq![c] + part, c) == split_of(s, c).push(part),
    decreases s.len(),
{
    let whole = s + seq![c] + part;
    lemma_find_char(s, c);
    match find_char_of(s, c) {
        Some(k) => {
            lemma_find_char_at(whole, c, k);
            assert(whole.skip(k + 1) =~= s.skip(k + 1) + seq![c] + part);
            lemma_split_push(s.skip(k + 1), c, part);
            assert(whole.take(k) =~= s.take(k));
            assert(split_of(whole, c) =~= split_of(s, c).push(part));
        },
        None => {
            lemma_find_char_at(whole, c, s.len() as int);
            assert(whole.take(s.len() as int) =~= s);
            assert(whole.skip(s.len() as int + 1) =~= part);
            lemma_find_char(part, c);
            if let Some(j) = find_char_of(part, c) {
                assert(part.contains(c));
            }
            assert(split_of(part, c) =~= seq![part]);
            assert(split_of(s, c) =~= seq![s]);
            assert(whole.skip(s.len() as int + 1) == part);
            assert(split_of(whole, c) =~= seq![s] + split_of(part, c));
        },
    }
}

/// Parts without the character that joins them come back from a split as they
/// were.
pub proof fn lemma_split_join(v: Seq<Seq<char>>, c: char)
    requires
        v.len() > 0,
        forall|i: int| 0 <= i < v.len() ==> !(#[trigger] v[i]).contains(c),
    ensures
        split_of(join_of(v, seq![c]), c) == v,
    decreases v.len(),
{
    if v.len() == 1 {
        lemma_find_char(v[0], c);
        if let Some(j) = find_char_of(v[0], c) {
            assert(v[0].contains(c));
        }
        assert(split_of(v[0], c) =~= v);
    } else {
        assert forall|i: int| 0 <= i < v.drop_last().len() implies !(#[trigger] v.drop_last()[i]).contains(
            c,
        ) by {
            assert(v.drop_last()[i] == v[i]);
        }
        lemma_split_join(v.drop_last(), c);
        lemma_split_push(join_of(v.drop_last(), seq![c]), c, v.last());
        assert(v.drop_last().push(v.last()) =~= v);
    }
}

pub fn join_slices(v: &Vec<&[char]>, sep: &str) -> (r: String)
    ensures
        r@ == join_of(slices(v@), sep@),
{
    let mut out = String::new();
    let mut i: usize = 0;
    assert(slices(v@).take(0) =~= seq![]);
    while i < v.len()
        invariant
            i <= v.len(),
            out@ == join_of(slices(v@).take(i as int), sep@),
        decreases v.len() - i,
    {
        let ghost all = slices(v@);
        if i > 0 {
            out.append(sep);
        }
        let part = to_text(v[i]);
        out.append(part.as_str());
        assert(all.take(i + 1).drop_last() =~= all.take(i as int));
        assert(all.take(i + 1).last() == part@);
        assert(i == 0 ==> seq![] + part@ =~= part@);
        i = i + 1;
    }
    assert(slices(v@).take(v@.len() as int) =~= slices(v@));
    out
}

pub fn join(v: &Vec<String>, sep: &str) -> (r: String)
    ensures
        r@ == join_of(texts(v@), sep@),
{
    let mut out = String::new();
    let mut i: usize = 0;
    assert(texts(v@).take(0) =~= seq![]);
    while i < v.len()
        invariant
            i <= v.len(),
            out@ == join_of(texts(v@).take(i as int), sep@),
        decreases v.len() - i,
    {
        let ghost all = texts(v@);
        if i > 0 {
            out.append(sep);
        }
        out.append(v[i].as_str());
        assert(all.take(i + 1).drop_last() =~= all.take(i as int));
        assert(all.take(i + 1).last() == v@[i as int]@);
        assert(i == 0 ==> seq![] + v@[i as int]@ =~= v@[i as int]@);
        i = i + 1;
    }
    assert(texts(v@).take(v@.len() as int) =~= texts(v@));
    out
}

/// The lines of a text that does not end with a line feed are its parts between line
/// feeds, those before the last without a carriage return at their end.
proof fn lemma_lines_split(s: Seq<char>)
    requires
        s.len() > 0,
        s.last() != '\n',
    ensures
        lines_of(s).len() == split_of(s, '\n').len(),
        lines_of(s).len() > 0,
        lines_of(s).last() == split_of(s, '\n').last(),
        forall|i: int|
            0 <= i < lines_of(s).len() - 1 ==> #[trigger] lines_of(s)[i] == without_cr(
                split_of(s, '\n')[i],
            ),
    decreases s.len(),
{
    lemma_find_char(s, '\n');
    if let Some(k) = find_char_of(s, '\n') {
        let rest = s.skip(k + 1);
        assert(k < s.len() - 1);
        assert(rest.last() == s.last());
        lemma_lines_split(rest);
        assert forall|i: int| 0 <= i < lines_of(s).len() - 1 implies #[trigger] lines_of(s)[i]
            == without_cr(split_of(s, '\n')[i]) by {
            if i > 0 {
                assert(lines_of(s)[i] == lines_of(rest)[i - 1]);
                assert(split_of(s, '\n')[i] == split_of(rest, '\n')[i - 1]);
            }
        }
    }
}

/// Lines that are joined by line feeds come back as they were: none of them holds a line
/// feed, the last is not empty, and the others do not end with a carriage return.
pub proof fn lemma_lines_join(v: Seq<Seq<char>>)
    requires
        v.len() > 0 ==> v.last().len() > 0,
        forall|i: int| 0 <= i < v.len() ==> !(#[trigger] v[i]).contains('\n'),
        forall|i: int| 0 <= i < v.len() - 1 ==> !ends_with_char(#[trigger] v[i], '\r'),
    ensures
        lines_of(join_of(v, "\n"@)) == v,
{
    reveal_strlit("\n");
    assert("\n"@ =~= seq!['\n']);
    if v.len() == 0 {
        assert(lines_of(join_of(v, "\n"@)) =~= v);
    } else {
        let s = join_of(v, seq!['\n']);
        lemma_split_join(v, '\n');
        assert(v.last()[v.last().len() - 1] == v.last().last());
        assert(s.last() == v.last().last());
        lemma_lines_split(s);
        assert(lines_of(s) =~= v);
    }
}

/// No line holds a line feed.
pub proof fn lemma_lines_plain(s: Seq<char>)
    ensures
        forall|i: int| 0 <= i < lines_of(s).len() ==> !(#[trigger] lines_of(s)[i]).contains('\n'),
    decreases s.len(),
{
    if s.len() > 0 {
        lemma_find_char(s, '\n');
        match find_char_of(s, '\n') {
            Some(k) => {
                let rest = s.skip(k + 1);
                lemma_lines_plain(rest);
                assert forall|i: int| 0 <= i < lines_of(s).len() implies !(#[trigger] lines_of(
                    s,
                )[i]).contains('\n') by {
                    if i > 0 {
                        assert(lines_of(s)[i] == lines_of(rest)[i - 1]);
                    } else {
                        let l = without_cr(s.take(k));
                        if l.contains('\n') {
                            let j = choose|j: int| 0 <= j < l.len() && l[j] == '\n';
                            assert(s[j] == '\n');
                        }
                    }
                }
            },
            None => {
                if s.contains('\n') {
                    let j = choose|j: int| 0 <= j < s.len() && s[j] == '\n';
                    assert(s[j] != '\n');
                }
            },
        }
    }
}

/// `s` without the characters `c`.
pub open spec fn without_char(s: Seq<char>, c: char) -> Seq<char>
    decreases s.len(),
{
    if s.len() == 0 {
        seq![]
    } else if s.last() == c {
        without_char(s.drop_last(), c)
    } else {
        without_char(s.drop_last(), c).push(s.last())
    }
}

pub fn remove_char(s: &[char], c: char) -> (r: String)
    ensures
        r@ == without_char(s@, c),
{
    let mut out = String::new();
    let mut i: usize = 0;
    while i < s.len()
        invariant
            i <= s.len(),
            out@ == without_char(s@.take(i as int), c),
        decreases s.len() - i,
    {
        assert(s@.take(i + 1).drop_last() =~= s@.take(i as int));
        if s[i] != c {
            out.push(s[i]);
        }
        i = i + 1;
    }
    assert(s@.take(s@.len() as int) =~= s@);
    out
}

/// `s` with `with` in the place of each character `c`.
pub open spec fn replace_char_of(s: Seq<char>, c: char, with: Seq<char>) -> Seq<char>
    decreases s.len(),
{
    if s.len() == 0 {
        seq![]
    } else if s.last() == c {
        replace_char_of(s.drop_last(), c, with) + with
    } else {
        replace_char_of(s.drop_last(), c, with).push(s.last())
    }
}

/// What is written for a text is written for each character in turn: the replacement for
/// the character that is replaced, and any other as it is.
pub proof fn lemma_replace_char(a: Seq<char>, x: char, c: char, with: Seq<char>)
    ensures
        replace_char_of(Seq::empty(), c, with) == Seq::<char>::empty(),
        replace_char_of(a.push(x), c, with) == replace_char_of(a, c, with) + (if x == c {
            with
        } else {
            seq![x]
        }),
        !a.contains(c) ==> replace_char_of(a, c, with) == a,
    decreases a.len(),
{
    assert(a.push(x).drop_last() =~= a);
    if a.len() > 0 {
        assert(a.drop_last().push(a.last()) =~= a);
        lemma_replace_char(a.drop_last(), a.last(), c, with);
        if !a.contains(c) {
            assert(a[a.len() - 1] != c);
            if a.drop_last().contains(c) {
                let k = choose|k: int| 0 <= k < a.drop_last().len() && a.drop_last()[k] == c;
                assert(a[k] == c);
            }
        }
    }
    assert(replace_char_of(a.push(x), c, with) =~= replace_char_of(a, c, with) + (if x == c {
        with
    } else {
        seq![x]
    }));
    if a.len() == 0 {
        assert(replace_char_of(a, c, with) =~= a);
    }
}

pub fn replace_char(s: &[char], c: char, with: &str) -> (r: String)
    ensures
        r@ == replace_char_of(s@, c, with@),
{
    let mut out = String::new();
    let mut i: usize = 0;
    while i < s.len()
        invariant
            i <= s.len(),
            out@ == replace_char_of(s@.take(i as int), c, with@),
        decreases s.len() - i,
    {
        assert(s@.take(i + 1).drop_last() =~= s@.take(i as int));
        if s[i] == c {
            out.append(with);
        } else {
            out.push(s[i]);
        }
        i = i + 1;
    }
    assert(s@.take(s@.len() as int) =~= s@);
    out
}

// ---------------------------------------------------------------------------
// Numbers
// ---------------------------------------------------------------------------

pub open spec fn is_digit(c: char) -> bool {
    '0' <= c && c <= '9'
}

pub open spec fn all_digits(s: Seq<char>) -> bool {
    forall|i: int| 0 <= i < s.len() ==> is_digit(#[trigger] s[i])
}

/// The digit for `n`, which is below ten.
pub open spec fn digit_char(n: int) -> char {
    (('0' as u32) + n) as char
}

/// `n` in decimal.
pub open spec fn decimal(n: nat) -> Seq<char>
    decreases n,
{
    if n < 10 {
        seq![digit_char(n as int)]
    } else {
        decimal(n / 10).push(digit_char((n % 10) as int))
    }
}

/// `n` in decimal, with a minus sign where it is negative.
pub open spec fn int_text_of(n: int) -> Seq<char> {
    if n < 0 {
        seq!['-'] + decimal((-n) as nat)
    } else {
        decimal(n as nat)
    }
}

/// The number that a decimal numeral stands for is the number that it was written for.
pub proof fn lemma_decimal(n: nat)
    ensures
        decimal(n).len() > 0,
        forall|i: int| 0 <= i < decimal(n).len() ==> is_digit(#[trigger] decimal(n)[i]),
        digits_value(decimal(n)) == n,
    decreases n,
{
    if n >= 10 {
        lemma_decimal(n / 10);
        assert(decimal(n).drop_last() =~= decimal(n / 10));
    } else {
        assert(decimal(n).drop_last() =~= seq![]);
        assert(digits_value(decimal(n).drop_last()) == 0);
    }
}

/// Numbers with one numeral are one number.
pub proof fn lemma_int_text(a: int, b: int)
    requires
        int_text_of(a) == int_text_of(b),
    ensures
        a == b,
{
    let (x, y) = (
        if a < 0 {
            (-a) as nat
        } else {
            a as nat
        },
        if b < 0 {
            (-b) as nat
        } else {
            b as nat
        },
    );
    lemma_decimal(x);
    lemma_decimal(y);
    if a < 0 && b < 0 {
        assert(decimal(x) =~= int_text_of(a).skip(1));
        assert(decimal(y) =~= int_text_of(b).skip(1));
    } else if a < 0 {
        assert(int_text_of(a)[0] == '-');
        assert(is_digit(decimal(y)[0]));
    } else if b < 0 {
        assert(int_text_of(b)[0] == '-');
        assert(is_digit(decimal(x)[0]));
    }
}

fn digit(n: u64) -> (c: char)
    requires
        n < 10,
    ensures
        c == digit_char(n as int),
{
    let code: u8 = 48 + n as u8;
    code as char
}

/// `n` in decimal.
pub fn nat_text(n: u64) -> (r: String)
    ensures
        r@ == decimal(n as nat),
    decreases n,
{
    if n < 10 {
        let mut out = String::new();
        out.push(digit(n));
        assert(out@ =~= seq![digit_char(n as int)]);
        out
    } else {
        let mut out = nat_text(n / 10);
        out.push(digit(n % 10));
        out
    }
}

/// `n` in decimal, with a minus sign where it is negative.
pub fn int_text(n: i64) -> (r: String)
    ensures
        r@ == int_text_of(n as int),
{
    if n < 0 {
        let mut out = String::new();
        out.push('-');
        let m: u64 = (-(n + 1)) as u64 + 1;
        let d = nat_text(m);
        out.append(d.as_str());
        assert(out@ =~= seq!['-'] + decimal((-n) as nat));
        out
    } else {
        nat_text(n as u64)
    }
}

/// The number that the digits of `s` write.
pub open spec fn digits_value(s: Seq<char>) -> nat
    decreases s.len(),
{
    if s.len() == 0 {
        0
    } else {
        digits_value(s.drop_last()) * 10 + (s.last() as u32 - '0' as u32) as nat
    }
}

/// The number that `s` writes with an optional sign and at least one digit, if
/// it lies between `lo` and `hi`.
pub open spec fn parse_int_of(s: Seq<char>, lo: int, hi: int) -> Option<int> {
    let signed = s.len() > 0 && (s[0] == '-' || s[0] == '+');
    let body = if signed {
        s.skip(1)
    } else {
        s
    };
    let value = if signed && s[0] == '-' {
        -digits_value(body)
    } else {
        digits_value(body) as int
    };
    if body.len() > 0 && all_digits(body) && lo <= value <= hi {
        Some(value)
    } else {
        None
    }
}

/// A number that is written in decimal is read as that number.
pub proof fn lemma_parse_decimal(n: nat, lo: int, hi: int)
    requires
        lo <= n <= hi,
    ensures
        parse_int_of(decimal(n), lo, hi) == Some(n as int),
{
    lemma_decimal(n);
    assert(is_digit(decimal(n)[0]));
}

/// The number behind the last dash of a text that ends in a dash and a number.
pub proof fn lemma_numbered(head: Seq<char>, n: nat)
    requires
        n <= i64::MAX,
    ensures
        rfind_char_of(head + "-"@ + decimal(n), '-') == Some(head.len() as int),
        (head + "-"@ + decimal(n)).skip(head.len() as int + 1) == decimal(n),
        parse_int_of(decimal(n), i64::MIN as int, i64::MAX as int) == Some(n as int),
{
    reveal_strlit("-");
    let s = head + "-"@ + decimal(n);
    let k = head.len() as int;
    lemma_decimal(n);
    lemma_parse_decimal(n, i64::MIN as int, i64::MAX as int);
    assert(s.skip(k + 1) =~= decimal(n));
    assert(s[k] == '-');
    assert forall|i: int| k < i < s.len() implies #[trigger] s[i] != '-' by {
        assert(is_digit(decimal(n)[i - k - 1]));
    }
    lemma_rfind_at(s, '-', k, s.len() as int);
}

/// The last position of a character is where it stands and nowhere behind it.
pub proof fn lemma_rfind_char(s: Seq<char>, c: char, k: int)
    requires
        0 <= k < s.len(),
        s[k] == c,
        forall|i: int| k < i < s.len() ==> #[trigger] s[i] != c,
    ensures
        rfind_char_of(s, c) == Some(k),
{
    lemma_rfind_at(s, c, k, s.len() as int);
}

proof fn lemma_rfind_at(s: Seq<char>, c: char, k: int, n: int)
    requires
        0 <= k < n <= s.len(),
        s[k] == c,
        forall|i: int| k < i < n ==> #[trigger] s[i] != c,
    ensures
        rfind_char_before(s, c, n) == Some(k),
    decreases n,
{
    if n - 1 > k {
        assert(s[n - 1] != c);
        lemma_rfind_at(s, c, k, n - 1);
    }
}

pub fn char_is_digit(c: char) -> (r: bool)
    ensures
        r == is_digit(c),
{
    '0' <= c && c <= '9'
}

/// The value of a digit.
fn digit_value(c: char) -> (r: u64)
    requires
        is_digit(c),
    ensures
        r == c as u32 - '0' as u32,
        r < 10,
{
    c as u64 - 48
}

/// The value of the digits `s`, or nothing where it exceeds the bound.
fn digits_up_to(s: &[char], bound: u64) -> (r: Option<u64>)
    requires
        all_digits(s@),
    ensures
        match r {
            Some(v) => v == digits_value(s@) && v <= bound,
            None => digits_value(s@) > bound,
        },
{
    let mut acc: u128 = 0;
    let mut big: bool = false;
    let mut i: usize = 0;
    while i < s.len()
        invariant
            i <= s.len(),
            all_digits(s@),
            acc <= bound as u128,
            !big ==> acc == digits_value(s@.take(i as int)),
            big ==> digits_value(s@.take(i as int)) > bound,
        decreases s.len() - i,
    {
        assert(s@.take(i + 1).drop_last() =~= s@.take(i as int));
        let d: u64 = digit_value(s[i]);
        if !big {
            let next: u128 = acc * 10 + d as u128;
            if next > bound as u128 {
                big = true;
            } else {
                acc = next;
            }
        }
        i = i + 1;
    }
    assert(s@.take(s@.len() as int) =~= s@);
    if big {
        None
    } else {
        Some(acc as u64)
    }
}

/// The view of an optional integer.
pub open spec fn opt_i64(o: Option<i64>) -> Option<int> {
    match o {
        Some(n) => Some(n as int),
        None => None,
    }
}

pub(crate) fn are_digits(s: &[char]) -> (r: bool)
    ensures
        r == all_digits(s@),
{
    let mut i: usize = 0;
    while i < s.len()
        invariant
            i <= s.len(),
            forall|k: int| 0 <= k < i ==> is_digit(#[trigger] s@[k]),
        decreases s.len() - i,
    {
        if !char_is_digit(s[i]) {
            assert(!is_digit(s@[i as int]));
            return false;
        }
        i = i + 1;
    }
    true
}

/// The `i64` that `s` writes.
pub fn parse_i64(s: &[char]) -> (r: Option<i64>)
    ensures
        opt_i64(r) == parse_int_of(s@, i64::MIN as int, i64::MAX as int),
{
    let signed = s.len() > 0 && (s[0] == '-' || s[0] == '+');
    let negative = s.len() > 0 && s[0] == '-';
    let body = if signed {
        assert(s@.skip(1) =~= s@.subrange(1, s@.len() as int));
        slice_subrange(s, 1, s.len())
    } else {
        s
    };
    if body.len() == 0 || !are_digits(body) {
        return None;
    }
    if negative {
        match digits_up_to(body, 0x8000_0000_0000_0000) {
            Some(v) => {
                if v == 0x8000_0000_0000_0000 {
                    Some(i64::MIN)
                } else {
                    Some(-(v as i64))
                }
            },
            None => None,
        }
    } else {
        match digits_up_to(body, 0x7fff_ffff_ffff_ffff) {
            Some(v) => Some(v as i64),
            None => None,
        }
    }
}

/// The view of an optional natural number.
pub open spec fn opt_u64(o: Option<u64>) -> Option<int> {
    match o {
        Some(n) => Some(n as int),
        None => None,
    }
}

/// The `u64` that `s` writes. A minus sign is not taken.
pub fn parse_u64(s: &[char]) -> (r: Option<u64>)
    ensures
        opt_u64(r) == (if s@.len() > 0 && s@[0] == '-' {
            None
        } else {
            parse_int_of(s@, 0, u64::MAX as int)
        }),
{
    if s.len() > 0 && s[0] == '-' {
        return None;
    }
    let signed = s.len() > 0 && s[0] == '+';
    let body = if signed {
        assert(s@.skip(1) =~= s@.subrange(1, s@.len() as int));
        slice_subrange(s, 1, s.len())
    } else {
        s
    };
    if body.len() == 0 || !are_digits(body) {
        return None;
    }
    digits_up_to(body, u64::MAX)
}

// ---------------------------------------------------------------------------
// UTF-8 lengths
// ---------------------------------------------------------------------------

/// The number of bytes that a character takes in UTF-8.
pub open spec fn char_width(c: char) -> nat {
    let n = c as u32;
    if n <= 0x7f {
        1
    } else if n <= 0x7ff {
        2
    } else if n <= 0xffff {
        3
    } else {
        4
    }
}

/// The number of bytes that `s` takes in UTF-8.
pub open spec fn utf8_len(s: Seq<char>) -> nat
    decreases s.len(),
{
    if s.len() == 0 {
        0
    } else {
        utf8_len(s.drop_last()) + char_width(s.last())
    }
}

/// The length, counted from the front.
pub proof fn lemma_utf8_len_front(s: Seq<char>)
    requires
        s.len() > 0,
    ensures
        utf8_len(s) == char_width(s[0]) + utf8_len(s.drop_first()),
    decreases s.len(),
{
    if s.len() == 1 {
        assert(s.drop_first() =~= seq![]);
        assert(s.drop_last() =~= seq![]);
        assert(utf8_len(s.drop_first()) == 0);
        assert(utf8_len(s.drop_last()) == 0);
    } else {
        lemma_utf8_len_front(s.drop_last());
        assert(s.drop_last().drop_first() =~= s.drop_first().drop_last());
    }
}

/// The UTF-8 encoding of `s` has the length that its characters add up to.
pub proof fn lemma_utf8_len(s: Seq<char>)
    ensures
        vstd::utf8::encode_utf8(s).len() == utf8_len(s),
    decreases s.len(),
{
    if s.len() > 0 {
        lemma_utf8_len_front(s);
        lemma_utf8_len(s.drop_first());
        vstd::utf8::char_is_scalar(s[0]);
    }
}

/// A text of characters of one byte each takes as many bytes as characters.
pub proof fn lemma_narrow_len(s: Seq<char>)
    requires
        forall|i: int| 0 <= i < s.len() ==> char_width(#[trigger] s[i]) == 1,
    ensures
        utf8_len(s) == s.len(),
    decreases s.len(),
{
    if s.len() > 0 {
        lemma_narrow_len(s.drop_last());
    }
}

/// A prefix is no longer than the whole.
pub proof fn lemma_utf8_len_take(s: Seq<char>, i: int)
    requires
        0 <= i <= s.len(),
    ensures
        utf8_len(s.take(i)) <= utf8_len(s),
    decreases s.len() - i,
{
    if i < s.len() {
        lemma_utf8_len_take(s, i + 1);
        assert(s.take(i + 1).drop_last() =~= s.take(i));
    } else {
        assert(s.take(i) =~= s);
    }
}

pub fn width(c: char) -> (r: usize)
    ensures
        r == char_width(c),
        1 <= r <= 4,
{
    let n: u32 = c as u32;
    if n <= 0x7f {
        1
    } else if n <= 0x7ff {
        2
    } else if n <= 0xffff {
        3
    } else {
        4
    }
}

/// The position in bytes of the character at position `n`.
pub fn byte_offset(s: &str, n: usize) -> (r: usize)
    requires
        n <= s@.len(),
    ensures
        r == utf8_len(s@.take(n as int)),
{
    let chars = to_chars(s);
    let len: usize = s.as_bytes().len();
    proof {
        lemma_utf8_len(s@);
    }
    let mut total: usize = 0;
    let mut i: usize = 0;
    while i < n
        invariant
            i <= n,
            n <= s@.len(),
            chars@ == s@,
            len == utf8_len(s@),
            total == utf8_len(s@.take(i as int)),
        decreases n - i,
    {
        assert(s@.take(i + 1).drop_last() =~= s@.take(i as int));
        proof {
            lemma_utf8_len_take(s@, i + 1);
        }
        total = total + width(chars[i]);
        i = i + 1;
    }
    total
}

/// The numeral of a number is that of its tenth part followed by its last digit.
pub proof fn lemma_numeral(n: nat, d: nat)
    requires
        n > 0,
        d < 10,
    ensures
        decimal(10 * n + d) == decimal(n) + decimal(d),
        decimal(0) == "0"@ && decimal(1) == "1"@ && decimal(2) == "2"@ && decimal(3) == "3"@,
        decimal(4) == "4"@ && decimal(5) == "5"@ && decimal(6) == "6"@ && decimal(7) == "7"@,
        decimal(8) == "8"@ && decimal(9) == "9"@,
{
    reveal_strlit("0");
    reveal_strlit("1");
    reveal_strlit("2");
    reveal_strlit("3");
    reveal_strlit("4");
    reveal_strlit("5");
    reveal_strlit("6");
    reveal_strlit("7");
    reveal_strlit("8");
    reveal_strlit("9");
    let m = 10 * n + d;
    assert(m / 10 == n && m % 10 == d);
    assert(decimal(m) =~= decimal(n) + decimal(d));
    assert(decimal(0) =~= "0"@ && decimal(1) =~= "1"@ && decimal(2) =~= "2"@);
    assert(decimal(3) =~= "3"@ && decimal(4) =~= "4"@ && decimal(5) =~= "5"@);
    assert(decimal(6) =~= "6"@ && decimal(7) =~= "7"@ && decimal(8) =~= "8"@);
    assert(decimal(9) =~= "9"@);
}

} // verus!
