//! The layout of a Yjs update in its first version, as far as it takes to know that the
//! update can be read and applied: what it claims is there, its clocks stay within
//! bounds, its values do not nest too deep, and what it refers to came before.

use vstd::prelude::*;

use crate::update_levels::{self, Entry, Links, Section};

verus! {

/// How deep values may nest in one another.
pub const MAX_VALUE_DEPTH: u32 = 100;

/// The highest clock.
pub const MAX_CLOCK: u32 = 0x7fff_ffff;

/// The highest number of bytes of a signed number.
pub const MAX_SIGNED_LEN: u32 = 9;

// ---------------------------------------------------------------------------
// Numbers
// ---------------------------------------------------------------------------

/// The number whose bytes go on at `pos`, seven bits to a byte and the low ones first,
/// and where it ends. Bits above the highest wrap around.
pub open spec fn var_from(b: Seq<u8>, pos: int, shift: u32, acc: u32) -> Option<(u32, int)>
    decreases b.len() - pos,
{
    if pos < 0 || pos >= b.len() || shift > 70 {
        None
    } else {
        let v = acc | (((b[pos] & 0x7f) as u32) << (shift % 32));
        if b[pos] < 0x80 {
            Some((v, pos + 1))
        } else {
            var_from(b, pos + 1, (shift + 7) as u32, v)
        }
    }
}

/// The number at `pos`, and where it ends.
pub open spec fn var_at(b: Seq<u8>, pos: int) -> Option<(u32, int)> {
    var_from(b, pos, 0, 0)
}

/// As `var_from`, with 64 bits.
pub open spec fn wide_from(b: Seq<u8>, pos: int, shift: u32, acc: u64) -> Option<(u64, int)>
    decreases b.len() - pos,
{
    if pos < 0 || pos >= b.len() || shift > 70 {
        None
    } else {
        let v = acc | (((b[pos] & 0x7f) as u64) << ((shift % 64) as u64));
        if b[pos] < 0x80 {
            Some((v, pos + 1))
        } else {
            wide_from(b, pos + 1, (shift + 7) as u32, v)
        }
    }
}

/// The number of 64 bits at `pos`, and where it ends.
pub open spec fn wide_at(b: Seq<u8>, pos: int) -> Option<(u64, int)> {
    wide_from(b, pos, 0, 0)
}

/// Where a signed number ends that goes on at `pos` and has `left` bytes left.
pub open spec fn signed_end(b: Seq<u8>, pos: int, left: nat) -> Option<int>
    decreases left,
{
    if pos < 0 || pos >= b.len() || left == 0 {
        None
    } else if b[pos] < 0x80 {
        Some(pos + 1)
    } else {
        signed_end(b, pos + 1, (left - 1) as nat)
    }
}

/// Where `n` bytes from `pos` on end.
pub open spec fn skip_end(b: Seq<u8>, pos: int, n: int) -> Option<int> {
    if pos + n <= b.len() {
        Some(pos + n)
    } else {
        None
    }
}

fn read_var(b: &[u8], pos: usize) -> (r: Option<(u32, usize)>)
    ensures
        match r {
            Some((v, end)) => var_at(b@, pos as int) == Some((v, end as int)) && pos < end
                <= b@.len(),
            None => var_at(b@, pos as int) is None,
        },
{
    let mut at: usize = pos;
    let mut shift: u32 = 0;
    let mut acc: u32 = 0;
    while at < b.len() && shift <= 70
        invariant
            pos <= at,
            at <= b@.len() || at == pos,
            shift <= 77,
            var_at(b@, pos as int) == var_from(b@, at as int, shift, acc),
        decreases b@.len() - at,
    {
        let v: u32 = acc | (((b[at] & 0x7f) as u32) << (shift % 32));
        if b[at] < 0x80 {
            return Some((v, at + 1));
        }
        acc = v;
        shift = shift + 7;
        at = at + 1;
    }
    None
}

fn read_wide(b: &[u8], pos: usize) -> (r: Option<(u64, usize)>)
    ensures
        match r {
            Some((v, end)) => wide_at(b@, pos as int) == Some((v, end as int)) && pos < end
                <= b@.len(),
            None => wide_at(b@, pos as int) is None,
        },
{
    let mut at: usize = pos;
    let mut shift: u32 = 0;
    let mut acc: u64 = 0;
    while at < b.len() && shift <= 70
        invariant
            pos <= at,
            at <= b@.len() || at == pos,
            shift <= 77,
            wide_at(b@, pos as int) == wide_from(b@, at as int, shift, acc),
        decreases b@.len() - at,
    {
        let v: u64 = acc | (((b[at] & 0x7f) as u64) << ((shift % 64) as u64));
        if b[at] < 0x80 {
            return Some((v, at + 1));
        }
        acc = v;
        shift = shift + 7;
        at = at + 1;
    }
    None
}

fn skip_signed(b: &[u8], pos: usize) -> (r: Option<usize>)
    ensures
        match r {
            Some(end) => signed_end(b@, pos as int, MAX_SIGNED_LEN as nat) == Some(end as int)
                && pos < end <= b@.len(),
            None => signed_end(b@, pos as int, MAX_SIGNED_LEN as nat) is None,
        },
{
    let mut at: usize = pos;
    let mut left: u32 = MAX_SIGNED_LEN;
    while at < b.len() && left > 0
        invariant
            pos <= at,
            at <= b@.len() || at == pos,
            signed_end(b@, pos as int, MAX_SIGNED_LEN as nat) == signed_end(
                b@,
                at as int,
                left as nat,
            ),
        decreases left,
    {
        if b[at] < 0x80 {
            return Some(at + 1);
        }
        left = left - 1;
        at = at + 1;
    }
    None
}

fn skip_bytes(b: &[u8], pos: usize, n: usize) -> (r: Option<usize>)
    requires
        pos <= b@.len(),
    ensures
        match r {
            Some(end) => skip_end(b@, pos as int, n as int) == Some(end as int) && pos <= end
                <= b@.len(),
            None => skip_end(b@, pos as int, n as int) is None,
        },
{
    if n <= b.len() - pos {
        Some(pos + n)
    } else {
        None
    }
}

// ---------------------------------------------------------------------------
// Texts
// ---------------------------------------------------------------------------

/// Whether the byte at `pos` goes on with a character.
pub open spec fn tail_at(b: Seq<u8>, pos: int, low: int, high: int) -> bool {
    low <= b[pos] <= high
}

/// How many bytes the UTF-8 character at `pos` has; none where there is no such
/// character before `end`.
pub open spec fn char_len(b: Seq<u8>, pos: int, end: int) -> int {
    let c = b[pos] as int;
    if c < 0x80 {
        1
    } else if 0xc2 <= c < 0xe0 && pos + 1 < end && tail_at(b, pos + 1, 0x80, 0xbf) {
        2
    } else if 0xe0 <= c < 0xf0 && pos + 2 < end && tail_at(
        b,
        pos + 1,
        if c == 0xe0 {
            0xa0
        } else {
            0x80
        },
        if c == 0xed {
            0x9f
        } else {
            0xbf
        },
    ) && tail_at(b, pos + 2, 0x80, 0xbf) {
        3
    } else if 0xf0 <= c < 0xf5 && pos + 3 < end && tail_at(
        b,
        pos + 1,
        if c == 0xf0 {
            0x90
        } else {
            0x80
        },
        if c == 0xf4 {
            0x8f
        } else {
            0xbf
        },
    ) && tail_at(b, pos + 2, 0x80, 0xbf) && tail_at(b, pos + 3, 0x80, 0xbf) {
        4
    } else {
        0
    }
}

/// Whether the bytes from `pos` to `end` are UTF-8.
pub open spec fn is_text(b: Seq<u8>, pos: int, end: int) -> bool
    decreases end - pos,
{
    if pos >= end {
        true
    } else {
        let n = char_len(b, pos, end);
        n > 0 && is_text(b, pos + n, end)
    }
}

/// How many UTF-16 units a character of `n` bytes has.
pub open spec fn char_units(n: int) -> int {
    if n == 4 {
        2
    } else {
        1
    }
}

/// How many UTF-16 units the text from `pos` to `end` has.
pub open spec fn units(b: Seq<u8>, pos: int, end: int) -> int
    decreases end - pos,
{
    if pos >= end {
        0
    } else {
        let n = char_len(b, pos, end);
        if n <= 0 {
            0
        } else {
            char_units(n) + units(b, pos + n, end)
        }
    }
}

/// The places within the pairs of UTF-16 units of a text, where its first unit stands at
/// `clock`.
pub open spec fn pair_places(b: Seq<u8>, pos: int, end: int, client: u32, clock: u64) -> Seq<
    (u32, u64),
>
    decreases end - pos,
{
    if pos >= end {
        seq![]
    } else {
        let n = char_len(b, pos, end);
        if n <= 0 {
            seq![]
        } else if n == 4 {
            seq![(client, (clock + 1) as u64)] + pair_places(
                b,
                pos + n,
                end,
                client,
                (clock + 2) as u64,
            )
        } else {
            pair_places(b, pos + n, end, client, (clock + 1) as u64)
        }
    }
}

/// Where the bytes end that begin at `pos` with their number, and where they begin.
pub open spec fn buf_at(b: Seq<u8>, pos: int) -> Option<(int, int)> {
    match var_at(b, pos) {
        Some((n, start)) => if start + n <= b.len() {
            Some((start, start + n))
        } else {
            None
        },
        None => None,
    }
}

/// The text that begins at `pos` with the number of its bytes: where it begins and ends.
pub open spec fn text_at(b: Seq<u8>, pos: int) -> Option<(int, int)> {
    match buf_at(b, pos) {
        Some((start, end)) => if is_text(b, start, end) {
            Some((start, end))
        } else {
            None
        },
        None => None,
    }
}

/// Where the text ends that begins at `pos` with the number of its bytes.
pub open spec fn text_end(b: Seq<u8>, pos: int) -> Option<int> {
    match text_at(b, pos) {
        Some((start, end)) => Some(end),
        None => None,
    }
}

/// Where `n` texts from `pos` on end.
pub open spec fn texts_end(b: Seq<u8>, pos: int, n: int) -> Option<int>
    decreases n,
{
    if n <= 0 {
        Some(pos)
    } else {
        match text_end(b, pos) {
            Some(p) => texts_end(b, p, n - 1),
            None => None,
        }
    }
}

fn is_tail(x: u8, low: u8, high: u8) -> (r: bool)
    ensures
        r == (low <= x <= high),
{
    low <= x && x <= high
}

fn read_char(b: &[u8], pos: usize, end: usize) -> (r: usize)
    requires
        pos < end <= b@.len(),
    ensures
        r == char_len(b@, pos as int, end as int),
        pos + r <= end,
{
    let c = b[pos];
    let left: usize = end - pos;
    if c < 0x80 {
        1
    } else if 0xc2 <= c && c < 0xe0 && left > 1 && is_tail(b[pos + 1], 0x80, 0xbf) {
        2
    } else if 0xe0 <= c && c < 0xf0 && left > 2 && is_tail(
        b[pos + 1],
        if c == 0xe0 {
            0xa0
        } else {
            0x80
        },
        if c == 0xed {
            0x9f
        } else {
            0xbf
        },
    ) && is_tail(b[pos + 2], 0x80, 0xbf) {
        3
    } else if 0xf0 <= c && c < 0xf5 && left > 3 && is_tail(
        b[pos + 1],
        if c == 0xf0 {
            0x90
        } else {
            0x80
        },
        if c == 0xf4 {
            0x8f
        } else {
            0xbf
        },
    ) && is_tail(b[pos + 2], 0x80, 0xbf) && is_tail(b[pos + 3], 0x80, 0xbf) {
        4
    } else {
        0
    }
}

fn read_buf(b: &[u8], pos: usize) -> (r: Option<(usize, usize)>)
    ensures
        match r {
            Some((start, end)) => buf_at(b@, pos as int) == Some((start as int, end as int))
                && pos < start <= end <= b@.len(),
            None => buf_at(b@, pos as int) is None,
        },
{
    match read_var(b, pos) {
        Some((n, start)) => {
            if n as u64 <= (b.len() - start) as u64 {
                Some((start, start + n as usize))
            } else {
                None
            }
        },
        None => None,
    }
}

fn read_text(b: &[u8], pos: usize) -> (r: Option<(usize, usize)>)
    ensures
        match r {
            Some((start, end)) => text_at(b@, pos as int) == Some((start as int, end as int))
                && pos < start <= end <= b@.len(),
            None => text_at(b@, pos as int) is None,
        },
{
    match read_buf(b, pos) {
        Some((start, end)) => {
            let mut at: usize = start;
            while at < end
                invariant
                    start <= at <= end <= b@.len(),
                    buf_at(b@, pos as int) == Some((start as int, end as int)),
                    is_text(b@, start as int, end as int) == is_text(b@, at as int, end as int),
                decreases end - at,
            {
                let n: usize = read_char(b, at, end);
                if n == 0 {
                    return None;
                }
                at = at + n;
            }
            Some((start, end))
        },
        None => None,
    }
}

fn skip_text(b: &[u8], pos: usize) -> (r: Option<usize>)
    ensures
        match r {
            Some(end) => text_end(b@, pos as int) == Some(end as int) && pos < end <= b@.len(),
            None => text_end(b@, pos as int) is None,
        },
{
    match read_text(b, pos) {
        Some((_, end)) => Some(end),
        None => None,
    }
}

fn skip_texts(b: &[u8], pos: usize, n: u64) -> (r: Option<usize>)
    requires
        pos <= b@.len(),
    ensures
        match r {
            Some(end) => texts_end(b@, pos as int, n as int) == Some(end as int) && pos <= end
                <= b@.len(),
            None => texts_end(b@, pos as int, n as int) is None,
        },
{
    let mut at: usize = pos;
    let mut left: u64 = n;
    while left > 0
        invariant
            pos <= at <= b@.len(),
            texts_end(b@, pos as int, n as int) == texts_end(b@, at as int, left as int),
        decreases left,
    {
        match skip_text(b, at) {
            Some(p) => {
                at = p;
            },
            None => {
                return None;
            },
        }
        left = left - 1;
    }
    Some(at)
}

// ---------------------------------------------------------------------------
// Values
// ---------------------------------------------------------------------------

/// Whether `n` things can stand in the bytes from `pos` on, at one byte each.
pub open spec fn room_for(b: Seq<u8>, pos: int, n: int) -> bool {
    n <= b.len() - pos
}

/// Where the value at `pos` ends, in which others may nest `depth` levels deep.
pub open spec fn value_end(b: Seq<u8>, pos: int, depth: nat) -> Option<int>
    decreases depth, 0nat,
{
    if pos < 0 || pos >= b.len() {
        None
    } else {
        let tag = b[pos];
        if tag == 127 || tag == 126 || tag == 121 || tag == 120 {
            Some(pos + 1)
        } else if tag == 125 {
            signed_end(b, pos + 1, MAX_SIGNED_LEN as nat)
        } else if tag == 124 {
            skip_end(b, pos + 1, 4)
        } else if tag == 123 || tag == 122 {
            skip_end(b, pos + 1, 8)
        } else if tag == 119 {
            text_end(b, pos + 1)
        } else if (tag == 118 || tag == 117) && depth > 0 {
            match wide_at(b, pos + 1) {
                Some((n, p)) => if room_for(b, p, n as int) {
                    values_end(b, p, n as nat, tag == 118, (depth - 1) as nat)
                } else {
                    None
                },
                None => None,
            }
        } else if tag == 116 {
            match buf_at(b, pos + 1) {
                Some((start, end)) => Some(end),
                None => None,
            }
        } else {
            None
        }
    }
}

/// Where `n` values from `pos` on end, each after its key where they have keys.
pub open spec fn values_end(b: Seq<u8>, pos: int, n: nat, keyed: bool, depth: nat) -> Option<int>
    decreases depth, n,
{
    if n == 0 {
        Some(pos)
    } else {
        let start = if keyed {
            text_end(b, pos)
        } else {
            Some(pos)
        };
        match start {
            Some(p) => match value_end(b, p, depth) {
                Some(q) => values_end(b, q, (n - 1) as nat, keyed, depth),
                None => None,
            },
            None => None,
        }
    }
}

fn skip_value(b: &[u8], pos: usize, depth: u32) -> (r: Option<usize>)
    ensures
        match r {
            Some(end) => value_end(b@, pos as int, depth as nat) == Some(end as int) && pos < end
                <= b@.len(),
            None => value_end(b@, pos as int, depth as nat) is None,
        },
    decreases depth, 0nat,
{
    if pos >= b.len() {
        return None;
    }
    let tag = b[pos];
    if tag == 127 || tag == 126 || tag == 121 || tag == 120 {
        Some(pos + 1)
    } else if tag == 125 {
        skip_signed(b, pos + 1)
    } else if tag == 124 {
        skip_bytes(b, pos + 1, 4)
    } else if tag == 123 || tag == 122 {
        skip_bytes(b, pos + 1, 8)
    } else if tag == 119 {
        skip_text(b, pos + 1)
    } else if (tag == 118 || tag == 117) && depth > 0 {
        match read_wide(b, pos + 1) {
            Some((n, p)) => {
                if n <= (b.len() - p) as u64 {
                    skip_values(b, p, n, tag == 118, depth - 1)
                } else {
                    None
                }
            },
            None => None,
        }
    } else if tag == 116 {
        match read_buf(b, pos + 1) {
            Some((_, end)) => Some(end),
            None => None,
        }
    } else {
        None
    }
}

fn skip_values(b: &[u8], pos: usize, n: u64, keyed: bool, depth: u32) -> (r: Option<usize>)
    requires
        pos <= b@.len(),
    ensures
        match r {
            Some(end) => values_end(b@, pos as int, n as nat, keyed, depth as nat) == Some(
                end as int,
            ) && pos <= end <= b@.len(),
            None => values_end(b@, pos as int, n as nat, keyed, depth as nat) is None,
        },
    decreases depth, 1nat,
{
    let mut at: usize = pos;
    let mut left: u64 = n;
    while left > 0
        invariant
            pos <= at <= b@.len(),
            values_end(b@, pos as int, n as nat, keyed, depth as nat) == values_end(
                b@,
                at as int,
                left as nat,
                keyed,
                depth as nat,
            ),
        decreases left,
    {
        let start = if keyed {
            skip_text(b, at)
        } else {
            Some(at)
        };
        match start {
            Some(p) => {
                match skip_value(b, p, depth) {
                    Some(q) => {
                        at = q;
                    },
                    None => {
                        return None;
                    },
                }
            },
            None => {
                return None;
            },
        }
        left = left - 1;
    }
    Some(at)
}

// ---------------------------------------------------------------------------
// Contents
// ---------------------------------------------------------------------------

/// Where the kind of a shared type at `pos` ends.
pub open spec fn type_end(b: Seq<u8>, pos: int) -> Option<int> {
    if pos < 0 || pos >= b.len() {
        None
    } else {
        let kind = b[pos];
        if kind == 3 {
            text_end(b, pos + 1)
        } else if kind < 7 || kind == 9 || kind == 15 {
            Some(pos + 1)
        } else {
            None
        }
    }
}

/// The end, with a length.
pub open spec fn with_len(end: Option<int>, len: int) -> Option<(int, int)> {
    match end {
        Some(p) => Some((p, len)),
        None => None,
    }
}

/// Where the content of an item ends that begins at `pos`, and how many clocks it takes.
/// The kinds are deleted content, texts of JSON, bytes, text, an embedded value, a mark, a
/// shared type, values and a document of its own. Moves are not taken.
pub open spec fn content_at(b: Seq<u8>, pos: int, kind: u8) -> Option<(int, int)> {
    if kind == 1 {
        match var_at(b, pos) {
            Some((n, p)) => Some((p, n as int)),
            None => None,
        }
    } else if kind == 2 {
        match var_at(b, pos) {
            Some((n, p)) => if room_for(b, p, n as int) {
                with_len(texts_end(b, p, n + 1), n + 1)
            } else {
                None
            },
            None => None,
        }
    } else if kind == 3 {
        match buf_at(b, pos) {
            Some((start, end)) => Some((end, 1)),
            None => None,
        }
    } else if kind == 4 {
        match text_at(b, pos) {
            Some((start, end)) => Some((end, units(b, start, end))),
            None => None,
        }
    } else if kind == 5 {
        with_len(text_end(b, pos), 1)
    } else if kind == 6 {
        with_len(texts_end(b, pos, 2), 1)
    } else if kind == 7 {
        with_len(type_end(b, pos), 1)
    } else if kind == 8 {
        match var_at(b, pos) {
            Some((n, p)) => if room_for(b, p, n as int) {
                with_len(values_end(b, p, n as nat, false, MAX_VALUE_DEPTH as nat), n as int)
            } else {
                None
            },
            None => None,
        }
    } else if kind == 9 {
        match text_end(b, pos) {
            Some(p) => with_len(value_end(b, p, MAX_VALUE_DEPTH as nat), 1),
            None => None,
        }
    } else {
        None
    }
}

/// The places within the pairs of UTF-16 units of a content.
pub open spec fn content_pairs(b: Seq<u8>, pos: int, kind: u8, client: u32, clock: u64) -> Seq<
    (u32, u64),
> {
    if kind == 4 {
        match text_at(b, pos) {
            Some((start, end)) => pair_places(b, start, end, client, clock),
            None => seq![],
        }
    } else {
        seq![]
    }
}

fn skip_type(b: &[u8], pos: usize) -> (r: Option<usize>)
    ensures
        match r {
            Some(end) => type_end(b@, pos as int) == Some(end as int) && pos < end <= b@.len(),
            None => type_end(b@, pos as int) is None,
        },
{
    if pos >= b.len() {
        return None;
    }
    let kind = b[pos];
    if kind == 3 {
        skip_text(b, pos + 1)
    } else if kind < 7 || kind == 9 || kind == 15 {
        Some(pos + 1)
    } else {
        None
    }
}

/// The units of the text from `start` to `end`; the places within its pairs are added to
/// `pairs`.
fn measure(
    b: &[u8],
    start: usize,
    end: usize,
    client: u32,
    clock: u32,
    pairs: &mut Vec<(u32, u64)>,
) -> (r: u64)
    requires
        start <= end <= b@.len(),
        end - start <= u32::MAX,
        is_text(b@, start as int, end as int),
    ensures
        r == units(b@, start as int, end as int),
        final(pairs)@ == old(pairs)@ + pair_places(
            b@,
            start as int,
            end as int,
            client,
            clock as u64,
        ),
{
    let ghost was = pairs@;
    let ghost all = pair_places(b@, start as int, end as int, client, clock as u64);
    let mut at: usize = start;
    let mut n: u64 = 0;
    assert(was + all =~= pairs@ + all);
    while at < end
        invariant
            start <= at <= end <= b@.len(),
            end - start <= u32::MAX,
            n <= at - start,
            is_text(b@, at as int, end as int),
            units(b@, start as int, end as int) == n + units(b@, at as int, end as int),
            was + all == pairs@ + pair_places(
                b@,
                at as int,
                end as int,
                client,
                (clock + n) as u64,
            ),
        decreases end - at,
    {
        let ghost before = pairs@;
        let ghost rest = pair_places(b@, at as int, end as int, client, (clock + n) as u64);
        let k: usize = read_char(b, at, end);
        if k == 4 {
            let place: u64 = clock as u64 + n + 1;
            pairs.push((client, place));
            n = n + 2;
            proof {
                let after = pair_places(b@, at + k, end as int, client, (clock + n) as u64);
                assert(before + rest =~= pairs@ + after);
            }
        } else {
            n = n + 1;
        }
        at = at + k;
    }
    assert(pairs@ + seq![] =~= pairs@);
    n
}

/// Where a content ends and its length; the places within the pairs of a text are added
/// to `pairs`.
fn read_content(
    b: &[u8],
    pos: usize,
    kind: u8,
    client: u32,
    clock: u32,
    pairs: &mut Vec<(u32, u64)>,
) -> (r: Option<(usize, u64)>)
    requires
        pos <= b@.len(),
    ensures
        match r {
            Some((end, len)) => {
                &&& content_at(b@, pos as int, kind) == Some((end as int, len as int))
                &&& pos < end <= b@.len()
                &&& len <= u32::MAX + 1
                &&& final(pairs)@ == old(pairs)@ + content_pairs(
                    b@,
                    pos as int,
                    kind,
                    client,
                    clock as u64,
                )
            },
            None => content_at(b@, pos as int, kind) is None,
        },
{
    assert(pairs@ + seq![] =~= pairs@);
    if kind == 1 {
        match read_var(b, pos) {
            Some((n, p)) => Some((p, n as u64)),
            None => None,
        }
    } else if kind == 2 {
        match read_var(b, pos) {
            Some((n, p)) => {
                if n as u64 <= (b.len() - p) as u64 {
                    match skip_texts(b, p, n as u64 + 1) {
                        Some(end) => Some((end, n as u64 + 1)),
                        None => None,
                    }
                } else {
                    None
                }
            },
            None => None,
        }
    } else if kind == 3 {
        match read_buf(b, pos) {
            Some((_, end)) => Some((end, 1)),
            None => None,
        }
    } else if kind == 4 {
        match read_text(b, pos) {
            Some((start, end)) => {
                proof {
                    lemma_units(b@, start as int, end as int);
                }
                let n: u64 = measure(b, start, end, client, clock, pairs);
                Some((end, n))
            },
            None => None,
        }
    } else if kind == 5 {
        match skip_text(b, pos) {
            Some(end) => Some((end, 1)),
            None => None,
        }
    } else if kind == 6 {
        proof {
            reveal_with_fuel(texts_end, 3);
        }
        match skip_text(b, pos) {
            Some(p) => match skip_text(b, p) {
                Some(end) => Some((end, 1)),
                None => None,
            },
            None => None,
        }
    } else if kind == 7 {
        match skip_type(b, pos) {
            Some(end) => Some((end, 1)),
            None => None,
        }
    } else if kind == 8 {
        match read_var(b, pos) {
            Some((n, p)) => {
                if n as u64 <= (b.len() - p) as u64 {
                    match skip_values(b, p, n as u64, false, MAX_VALUE_DEPTH) {
                        Some(end) => Some((end, n as u64)),
                        None => None,
                    }
                } else {
                    None
                }
            },
            None => None,
        }
    } else if kind == 9 {
        match skip_text(b, pos) {
            Some(p) => match skip_value(b, p, MAX_VALUE_DEPTH) {
                Some(end) => Some((end, 1)),
                None => None,
            },
            None => None,
        }
    } else {
        None
    }
}

/// A text has no more units than bytes.
proof fn lemma_units(b: Seq<u8>, pos: int, end: int)
    requires
        pos <= end,
    ensures
        0 <= units(b, pos, end) <= end - pos,
    decreases end - pos,
{
    if pos < end {
        let n = char_len(b, pos, end);
        if n > 0 {
            lemma_units(b, pos + n, end);
        }
    }
}

// ---------------------------------------------------------------------------
// Blocks
// ---------------------------------------------------------------------------

/// A client and a clock at `pos`, and where they end.
pub open spec fn id_at(b: Seq<u8>, pos: int) -> Option<((u32, u32), int)> {
    match var_at(b, pos) {
        Some((client, p)) => match var_at(b, p) {
            Some((clock, q)) => Some(((client, clock), q)),
            None => None,
        },
        None => None,
    }
}

/// Whether an id does not name a later clock of the client itself.
pub open spec fn comes_before(id: (u32, u32), client: u32, clock: u32) -> bool {
    id.0 != client || id.1 < clock
}

/// The id at `pos` where one is given, which comes before the block, and where it ends.
pub open spec fn reference_at(b: Seq<u8>, pos: int, given: bool, client: u32, clock: u32) -> Option<
    (Option<(u32, u32)>, int),
> {
    if !given {
        Some((None, pos))
    } else {
        match id_at(b, pos) {
            Some((id, p)) => if comes_before(id, client, clock) {
                Some((Some(id), p))
            } else {
                None
            },
            None => None,
        }
    }
}

/// The parent of an item, and where it ends: nothing for the name of a root, or an id that
/// comes before.
pub open spec fn parent_at(b: Seq<u8>, pos: int, client: u32, clock: u32) -> Option<
    (Option<(u32, u32)>, int),
> {
    match var_at(b, pos) {
        Some((named, p)) => if named == 1 {
            match text_end(b, p) {
                Some(q) => Some((None, q)),
                None => None,
            }
        } else {
            reference_at(b, p, true, client, clock)
        },
        None => None,
    }
}

/// What stands before the content of an item whose first byte is `info`: what it refers to,
/// and where its content begins. The parent is given where no neighbour is.
pub open spec fn head_at(b: Seq<u8>, pos: int, info: u8, client: u32, clock: u32) -> Option<
    (Links, int),
> {
    match reference_at(b, pos, (info & 0x80) != 0, client, clock) {
        None => None,
        Some((left, p)) => match reference_at(b, p, (info & 0x40) != 0, client, clock) {
            None => None,
            Some((right, q)) => if (info & 0xc0) != 0 {
                Some((Links { parent: None, left, right }, q))
            } else {
                match parent_at(b, q, client, clock) {
                    None => None,
                    Some((parent, r)) => if (info & 0x20) != 0 {
                        match text_end(b, r) {
                            Some(t) => Some((Links { parent, left, right }, t)),
                            None => None,
                        }
                    } else {
                        Some((Links { parent, left, right }, r))
                    },
                }
            },
        },
    }
}

/// What a scan has come to: the place in the bytes, the items, where blocks are to be
/// cut, and the places within pairs of UTF-16 units.
#[verifier::ext_equal]
pub struct Scan {
    pub at: int,
    pub entries: Seq<Entry>,
    pub cuts: Seq<(u32, u64)>,
    pub pairs: Seq<(u32, u64)>,
}

/// Where the neighbours of an item are cut from what lies between them: after the left
/// one and before the right one.
pub open spec fn neighbour_cuts(l: Links) -> Seq<(u32, u64)> {
    let before: Seq<(u32, u64)> = match l.left {
        Some(id) => seq![(id.0, (id.1 + 1) as u64)],
        None => seq![],
    };
    match l.right {
        Some(id) => before.push((id.0, id.1 as u64)),
        None => before,
    }
}

/// The scan after the block of `client` at `clock`, and how many clocks the block takes:
/// a gap, what was collected, or an item.
pub open spec fn block_from(b: Seq<u8>, s: Scan, client: u32, clock: u32) -> Option<(Scan, int)> {
    if s.at < 0 || s.at >= b.len() {
        None
    } else {
        let info = b[s.at];
        if info == 10 || info == 0 {
            match var_at(b, s.at + 1) {
                Some((n, p)) => if info == 0 && n == 0 {
                    None
                } else {
                    Some((Scan { at: p, ..s }, n as int))
                },
                None => None,
            }
        } else {
            match head_at(b, s.at + 1, info, client, clock) {
                None => None,
                Some((links, p)) => match content_at(b, p, info & 0x0f) {
                    None => None,
                    Some((end, len)) => Some(
                        (
                            Scan {
                                at: end,
                                entries: s.entries.push(
                                    Entry {
                                        client,
                                        start: clock as u64,
                                        end: (clock + len) as u64,
                                        links,
                                    },
                                ),
                                cuts: s.cuts + neighbour_cuts(links),
                                pairs: s.pairs + content_pairs(
                                    b,
                                    p,
                                    info & 0x0f,
                                    client,
                                    clock as u64,
                                ),
                            },
                            len,
                        ),
                    ),
                },
            }
        }
    }
}

/// The scan after `n` blocks of `client` from `clock` on.
pub open spec fn blocks_from(b: Seq<u8>, s: Scan, n: nat, client: u32, clock: u32) -> Option<Scan>
    decreases n,
{
    if n == 0 {
        Some(s)
    } else {
        match block_from(b, s, client, clock) {
            Some((t, len)) => if clock + len <= MAX_CLOCK {
                blocks_from(b, t, (n - 1) as nat, client, (clock + len) as u32)
            } else {
                None
            },
            None => None,
        }
    }
}

/// The scan after the blocks of `n` clients, none of which is among `seen` or comes
/// twice.
pub open spec fn clients_from(b: Seq<u8>, s: Scan, n: nat, seen: Seq<u32>) -> Option<Scan>
    decreases n,
{
    if n == 0 {
        Some(s)
    } else {
        match var_at(b, s.at) {
            None => None,
            Some((count, p)) => match id_at(b, p) {
                None => None,
                Some((id, q)) => if id.1 > MAX_CLOCK || seen.contains(id.0) || !room_for(
                    b,
                    q,
                    count as int,
                ) {
                    None
                } else {
                    match blocks_from(b, Scan { at: q, ..s }, count as nat, id.0, id.1) {
                        Some(t) => clients_from(b, t, (n - 1) as nat, seen.push(id.0)),
                        None => None,
                    }
                },
            },
        }
    }
}

/// The scan after `n` deleted ranges of `client`, which are cut at both ends.
pub open spec fn ranges_from(b: Seq<u8>, s: Scan, n: nat, client: u32) -> Option<Scan>
    decreases n,
{
    if n == 0 {
        Some(s)
    } else {
        match id_at(b, s.at) {
            None => None,
            Some((r, p)) => if r.0 + r.1 > MAX_CLOCK {
                None
            } else {
                let cuts = s.cuts.push((client, r.0 as u64)).push((client, (r.0 + r.1) as u64));
                ranges_from(b, Scan { at: p, cuts, ..s }, (n - 1) as nat, client)
            },
        }
    }
}

/// The scan after the deleted ranges of `n` clients.
pub open spec fn deletes_from(b: Seq<u8>, s: Scan, n: nat) -> Option<Scan>
    decreases n,
{
    if n == 0 {
        Some(s)
    } else {
        match id_at(b, s.at) {
            None => None,
            Some((id, p)) => if !room_for(b, p, id.1 as int) {
                None
            } else {
                match ranges_from(b, Scan { at: p, ..s }, id.1 as nat, id.0) {
                    Some(t) => deletes_from(b, t, (n - 1) as nat),
                    None => None,
                }
            },
        }
    }
}

/// A scan at `at` that has come to nothing yet.
pub open spec fn scan_at(at: int) -> Scan {
    Scan { at, entries: seq![], cuts: seq![], pairs: seq![] }
}

/// The scan of a whole update: the blocks by client, and what is deleted.
pub open spec fn scan_of(b: Seq<u8>) -> Option<Scan> {
    match var_at(b, 0) {
        None => None,
        Some((n, p)) => if !room_for(b, p, n as int) {
            None
        } else {
            match clients_from(b, scan_at(p), n as nat, seq![]) {
                None => None,
                Some(s) => match var_at(b, s.at) {
                    None => None,
                    Some((m, q)) => deletes_from(b, Scan { at: q, ..s }, m as nat),
                },
            }
        },
    }
}

/// Whether no cut goes through a pair of UTF-16 units.
pub open spec fn keeps_pairs(s: Scan) -> bool {
    forall|i: int, j: int|
        0 <= i < s.cuts.len() && 0 <= j < s.pairs.len() ==> #[trigger] s.cuts[i]
            != #[trigger] s.pairs[j]
}

/// Whether the bytes are an update that can be read and applied to an empty document:
/// every length that it claims is there, its texts are UTF-8, its clocks stay below the
/// highest, its values and types do not nest too deep, no client comes twice, a block
/// refers to no later block of its own client, and nothing is cut within a pair of UTF-16
/// units.
pub open spec fn sound_update(b: Seq<u8>) -> bool {
    match scan_of(b) {
        Some(s) => keeps_pairs(s) && update_levels::is_shallow(s.entries),
        None => false,
    }
}

/// What a scan has come to.
struct Tracer {
    at: usize,
    entries: Vec<Entry>,
    cuts: Vec<(u32, u64)>,
    pairs: Vec<(u32, u64)>,
}

impl View for Tracer {
    type V = Scan;

    closed spec fn view(&self) -> Scan {
        Scan {
            at: self.at as int,
            entries: self.entries@,
            cuts: self.cuts@,
            pairs: self.pairs@,
        }
    }
}

fn read_id(b: &[u8], pos: usize) -> (r: Option<((u32, u32), usize)>)
    ensures
        match r {
            Some((id, end)) => id_at(b@, pos as int) == Some((id, end as int)) && pos < end
                <= b@.len(),
            None => id_at(b@, pos as int) is None,
        },
{
    match read_var(b, pos) {
        Some((client, p)) => match read_var(b, p) {
            Some((clock, q)) => Some(((client, clock), q)),
            None => None,
        },
        None => None,
    }
}

fn read_reference(b: &[u8], pos: usize, given: bool, client: u32, clock: u32) -> (r: Option<
    (Option<(u32, u32)>, usize),
>)
    requires
        pos <= b@.len(),
    ensures
        match r {
            Some((id, end)) => reference_at(b@, pos as int, given, client, clock) == Some(
                (id, end as int),
            ) && pos <= end <= b@.len(),
            None => reference_at(b@, pos as int, given, client, clock) is None,
        },
{
    if !given {
        return Some((None, pos));
    }
    match read_id(b, pos) {
        Some((id, p)) => {
            if id.0 != client || id.1 < clock {
                Some((Some(id), p))
            } else {
                None
            }
        },
        None => None,
    }
}

fn read_parent(b: &[u8], pos: usize, client: u32, clock: u32) -> (r: Option<
    (Option<(u32, u32)>, usize),
>)
    ensures
        match r {
            Some((id, end)) => parent_at(b@, pos as int, client, clock) == Some((id, end as int))
                && pos < end <= b@.len(),
            None => parent_at(b@, pos as int, client, clock) is None,
        },
{
    match read_var(b, pos) {
        Some((named, p)) => {
            if named == 1 {
                match skip_text(b, p) {
                    Some(q) => Some((None, q)),
                    None => None,
                }
            } else {
                read_reference(b, p, true, client, clock)
            }
        },
        None => None,
    }
}

fn read_head(b: &[u8], pos: usize, info: u8, client: u32, clock: u32) -> (r: Option<
    (Links, usize),
>)
    requires
        pos <= b@.len(),
    ensures
        match r {
            Some((links, end)) => head_at(b@, pos as int, info, client, clock) == Some(
                (links, end as int),
            ) && pos <= end <= b@.len(),
            None => head_at(b@, pos as int, info, client, clock) is None,
        },
{
    match read_reference(b, pos, (info & 0x80) != 0, client, clock) {
        None => None,
        Some((left, p)) => match read_reference(b, p, (info & 0x40) != 0, client, clock) {
            None => None,
            Some((right, q)) => {
                if (info & 0xc0) != 0 {
                    return Some((Links { parent: None, left, right }, q));
                }
                match read_parent(b, q, client, clock) {
                    None => None,
                    Some((parent, r)) => {
                        if (info & 0x20) != 0 {
                            match skip_text(b, r) {
                                Some(t) => Some((Links { parent, left, right }, t)),
                                None => None,
                            }
                        } else {
                            Some((Links { parent, left, right }, r))
                        }
                    },
                }
            },
        },
    }
}

impl Tracer {
    /// Goes over a block, and gives the number of its clocks.
    fn block(&mut self, b: &[u8], client: u32, clock: u32) -> (r: Option<u64>)
        requires
            old(self)@.at <= b@.len(),
        ensures
            match r {
                Some(len) => block_from(b@, old(self)@, client, clock) == Some(
                    (final(self)@, len as int),
                ) && len <= u32::MAX + 1 && old(self)@.at < final(self)@.at <= b@.len(),
                None => block_from(b@, old(self)@, client, clock) is None,
            },
            r is None ==> final(self)@.entries == old(self)@.entries,
    {
        let at: usize = self.at;
        if at >= b.len() {
            return None;
        }
        let info = b[at];
        if info == 10 || info == 0 {
            match read_var(b, at + 1) {
                Some((n, p)) => {
                    if info == 0 && n == 0 {
                        return None;
                    }
                    self.at = p;
                    Some(n as u64)
                },
                None => None,
            }
        } else {
            match read_head(b, at + 1, info, client, clock) {
                None => None,
                Some((links, p)) => {
                    let ghost cuts = self.cuts@;
                    match read_content(b, p, info & 0x0f, client, clock, &mut self.pairs) {
                        None => None,
                        Some((end, len)) => {
                            self.at = end;
                            if let Some(id) = links.left {
                                self.cuts.push((id.0, id.1 as u64 + 1));
                            }
                            if let Some(id) = links.right {
                                self.cuts.push((id.0, id.1 as u64));
                            }
                            assert(self.cuts@ =~= cuts + neighbour_cuts(links));
                            let start: u64 = clock as u64;
                            self.entries.push(
                                Entry { client, start, end: start + len, links },
                            );
                            Some(len)
                        },
                    }
                },
            }
        }
    }

    /// Goes over `n` blocks of a client.
    fn blocks(&mut self, b: &[u8], n: u32, client: u32, clock: u32) -> (r: bool)
        requires
            old(self)@.at <= b@.len(),
            clock <= MAX_CLOCK,
        ensures
            final(self)@.at <= b@.len(),
            blocks_from(b@, old(self)@, n as nat, client, clock) == (if r {
                Some(final(self)@)
            } else {
                None
            }),
            old(self)@.entries.len() <= final(self)@.entries.len(),
            forall|i: int|
                0 <= i < old(self)@.entries.len() ==> #[trigger] final(self)@.entries[i]
                    == old(self)@.entries[i],
            update_levels::in_order(
                final(self)@.entries,
                old(self)@.entries.len() as int,
                client,
                u64::MAX as int,
            ),
    {
        let ghost start = self@;
        let mut left: u32 = n;
        let mut next: u32 = clock;
        while left > 0
            invariant
                start == old(self)@,
                self@.at <= b@.len(),
                next <= MAX_CLOCK,
                blocks_from(b@, start, n as nat, client, clock) == blocks_from(
                    b@,
                    self@,
                    left as nat,
                    client,
                    next,
                ),
                start.entries.len() <= self@.entries.len(),
                forall|i: int|
                    0 <= i < start.entries.len() ==> #[trigger] self@.entries[i]
                        == start.entries[i],
                update_levels::in_order(
                    self@.entries,
                    start.entries.len() as int,
                    client,
                    next as int,
                ),
            decreases left,
        {
            match self.block(b, client, next) {
                Some(len) => {
                    if len > (MAX_CLOCK - next) as u64 {
                        return false;
                    }
                    next = next + len as u32;
                },
                None => {
                    self.at = 0;
                    return false;
                },
            }
            left = left - 1;
        }
        true
    }

    /// Goes over the blocks of `n` clients, and gives where their items stand.
    fn clients(&mut self, b: &[u8], n: u32) -> (r: Option<Vec<Section>>)
        requires
            old(self)@.at <= b@.len(),
            old(self)@.entries.len() == 0,
        ensures
            final(self)@.at <= b@.len(),
            clients_from(b@, old(self)@, n as nat, seq![]) == (if r is Some {
                Some(final(self)@)
            } else {
                None
            }),
            r is Some ==> update_levels::in_sections(final(self)@.entries, r->0@),
    {
        let ghost start = self@;
        let mut seen: Vec<u32> = Vec::new();
        let mut sections: Vec<Section> = Vec::new();
        let mut left: u32 = n;
        assert(seen@ =~= seq![]);
        while left > 0
            invariant
                start == old(self)@,
                self@.at <= b@.len(),
                clients_from(b@, start, n as nat, seq![]) == clients_from(
                    b@,
                    self@,
                    left as nat,
                    seen@,
                ),
                update_levels::in_sections(self@.entries, sections@),
                sections@.len() == seen@.len(),
                forall|k: int| 0 <= k < seen@.len() ==> (#[trigger] sections@[k]).client == seen@[k],
            decreases left,
        {
            match read_var(b, self.at) {
                None => {
                    return None;
                },
                Some((count, p)) => {
                    match read_id(b, p) {
                        None => {
                            return None;
                        },
                        Some((id, q)) => {
                            if id.1 > MAX_CLOCK || holds(&seen, id.0) || count as u64 > (b.len()
                                - q) as u64 {
                                return None;
                            }
                            let ghost before = self@.entries;
                            let from: usize = self.entries.len();
                            self.at = q;
                            if !self.blocks(b, count, id.0, id.1) {
                                return None;
                            }
                            let section = Section { client: id.0, from, to: self.entries.len() };
                            proof {
                                assert(!update_levels::has_section(sections@, id.0)) by {
                                    if update_levels::has_section(sections@, id.0) {
                                        let k = choose|k: int|
                                            0 <= k < sections@.len() && (
                                            #[trigger] sections@[k]).client == id.0;
                                        assert(seen@[k] == id.0);
                                    }
                                }
                                update_levels::lemma_next_section(
                                    before,
                                    sections@,
                                    self@.entries,
                                    section,
                                    u64::MAX as int,
                                );
                            }
                            sections.push(section);
                            seen.push(id.0);
                        },
                    }
                },
            }
            left = left - 1;
        }
        Some(sections)
    }

    /// Goes over `n` deleted ranges of a client.
    fn ranges(&mut self, b: &[u8], n: u32, client: u32) -> (r: bool)
        requires
            old(self)@.at <= b@.len(),
        ensures
            final(self)@.at <= b@.len(),
            ranges_from(b@, old(self)@, n as nat, client) == (if r {
                Some(final(self)@)
            } else {
                None
            }),
            final(self)@.entries == old(self)@.entries,
    {
        let ghost start = self@;
        let mut left: u32 = n;
        while left > 0
            invariant
                start == old(self)@,
                self@.at <= b@.len(),
                self@.entries == start.entries,
                ranges_from(b@, start, n as nat, client) == ranges_from(
                    b@,
                    self@,
                    left as nat,
                    client,
                ),
            decreases left,
        {
            match read_id(b, self.at) {
                None => {
                    return false;
                },
                Some((range, p)) => {
                    let end: u64 = range.0 as u64 + range.1 as u64;
                    if end > MAX_CLOCK as u64 {
                        return false;
                    }
                    self.at = p;
                    self.cuts.push((client, range.0 as u64));
                    self.cuts.push((client, end));
                },
            }
            left = left - 1;
        }
        true
    }

    /// Goes over the deleted ranges of `n` clients.
    fn deletes(&mut self, b: &[u8], n: u32) -> (r: bool)
        requires
            old(self)@.at <= b@.len(),
        ensures
            deletes_from(b@, old(self)@, n as nat) == (if r {
                Some(final(self)@)
            } else {
                None
            }),
            final(self)@.entries == old(self)@.entries,
    {
        let ghost start = self@;
        let mut left: u32 = n;
        while left > 0
            invariant
                start == old(self)@,
                self@.at <= b@.len(),
                self@.entries == start.entries,
                deletes_from(b@, start, n as nat) == deletes_from(b@, self@, left as nat),
            decreases left,
        {
            match read_id(b, self.at) {
                None => {
                    return false;
                },
                Some((id, p)) => {
                    if id.1 as u64 > (b.len() - p) as u64 {
                        return false;
                    }
                    self.at = p;
                    if !self.ranges(b, id.1, id.0) {
                        return false;
                    }
                },
            }
            left = left - 1;
        }
        true
    }

    /// Whether no cut goes through a pair.
    fn keeps(&self) -> (r: bool)
        ensures
            r == keeps_pairs(self@),
    {
        let mut i: usize = 0;
        while i < self.cuts.len()
            invariant
                i <= self.cuts@.len(),
                forall|k: int, j: int|
                    0 <= k < i && 0 <= j < self.pairs@.len() ==> #[trigger] self.cuts@[k]
                        != #[trigger] self.pairs@[j],
            decreases self.cuts@.len() - i,
        {
            let cut = self.cuts[i];
            let mut j: usize = 0;
            while j < self.pairs.len()
                invariant
                    i < self.cuts@.len(),
                    cut == self.cuts@[i as int],
                    j <= self.pairs@.len(),
                    forall|k: int| 0 <= k < j ==> cut != #[trigger] self.pairs@[k],
                decreases self.pairs@.len() - j,
            {
                let pair = self.pairs[j];
                if cut.0 == pair.0 && cut.1 == pair.1 {
                    assert(self@.cuts[i as int] == self@.pairs[j as int]);
                    return false;
                }
                j = j + 1;
            }
            i = i + 1;
        }
        true
    }
}

fn holds(v: &Vec<u32>, x: u32) -> (r: bool)
    ensures
        r == v@.contains(x),
{
    let mut i: usize = 0;
    while i < v.len()
        invariant
            i <= v@.len(),
            forall|k: int| 0 <= k < i ==> v@[k] != x,
        decreases v@.len() - i,
    {
        if v[i] == x {
            return true;
        }
        i = i + 1;
    }
    false
}

/// Whether the bytes are an update that can be read and applied to an empty document.
pub fn is_sound(b: &[u8]) -> (r: bool)
    ensures
        r == sound_update(b@),
{
    match read_var(b, 0) {
        None => false,
        Some((n, p)) => {
            if n as u64 > (b.len() - p) as u64 {
                return false;
            }
            let mut t = Tracer {
                at: p,
                entries: Vec::new(),
                cuts: Vec::new(),
                pairs: Vec::new(),
            };
            assert(t@ =~= scan_at(p as int));
            match t.clients(b, n) {
                None => false,
                Some(sections) => {
                    match read_var(b, t.at) {
                        None => false,
                        Some((m, q)) => {
                            t.at = q;
                            t.deletes(b, m) && t.keeps() && update_levels::check_shallow(
                                &t.entries,
                                &sections,
                            )
                        },
                    }
                },
            }
        },
    }
}

} // verus!
