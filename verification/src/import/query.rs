//! Text in quoted literals of query languages.

use vstd::prelude::*;

use crate::text;

verus! {

/// A character as it stands in a literal: a backslash before a quote or another
/// backslash.
pub open spec fn escaped_char(c: char, quote: char) -> Seq<char> {
    if c == '\\' || c == quote {
        seq!['\\', c]
    } else {
        seq![c]
    }
}

/// A text as it stands in a literal.
pub open spec fn escaped(s: Seq<char>, quote: char) -> Seq<char>
    decreases s.len(),
{
    if s.len() == 0 {
        seq![]
    } else {
        escaped_char(s[0], quote) + escaped(s.skip(1), quote)
    }
}

/// Escapes a text for a literal in the given quotes.
pub(crate) fn escape_for(s: &str, quote: char) -> (r: String)
    ensures
        r@ == escaped(s@, quote),
{
    let chars = text::to_chars(s);
    let ghost all = s@;
    let mut out = String::new();
    let mut i: usize = 0;
    assert(all.skip(0) =~= all);
    assert(out@ + escaped(all, quote) =~= escaped(all, quote));
    while i < chars.len()
        invariant
            i <= all.len(),
            chars@ == all,
            escaped(all, quote) == out@ + escaped(all.skip(i as int), quote),
        decreases all.len() - i,
    {
        let c = chars[i];
        let ghost before = out@;
        if c == '\\' || c == quote {
            out.push('\\');
        }
        out.push(c);
        proof {
            assert(all.skip(i as int).skip(1) =~= all.skip(i + 1));
            assert(out@ =~= before + escaped_char(c, quote));
            assert(before + (escaped_char(c, quote) + escaped(all.skip(i + 1), quote)) =~= out@
                + escaped(all.skip(i + 1), quote));
        }
        i = i + 1;
    }
    assert(all.skip(all.len() as int) =~= seq![]);
    assert(out@ + seq![] =~= out@);
    out
}

/// Whether a text can stand in a literal: no quote ends it, and its end does not
/// escape the closing quote.
pub open spec fn fits_literal(s: Seq<char>, quote: char) -> bool
    decreases s.len(),
{
    if s.len() == 0 {
        true
    } else if s[0] == '\\' {
        s.len() > 1 && fits_literal(s.skip(2), quote)
    } else {
        s[0] != quote && fits_literal(s.skip(1), quote)
    }
}

/// The text that a literal stands for.
pub open spec fn unescaped(s: Seq<char>) -> Seq<char>
    decreases s.len(),
{
    if s.len() == 0 {
        seq![]
    } else if s[0] == '\\' && s.len() > 1 {
        seq![s[1]] + unescaped(s.skip(2))
    } else {
        seq![s[0]] + unescaped(s.skip(1))
    }
}

/// No text can break out of its literal, and the literal stands for that text.
pub proof fn lemma_escaped(s: Seq<char>, quote: char)
    ensures
        fits_literal(escaped(s, quote), quote),
        unescaped(escaped(s, quote)) == s,
    decreases s.len(),
{
    if s.len() > 0 {
        let c = s[0];
        let rest = escaped(s.skip(1), quote);
        let e = escaped(s, quote);
        lemma_escaped(s.skip(1), quote);
        assert(s =~= seq![c] + s.skip(1));
        if c == '\\' || c == quote {
            assert(e.skip(2) =~= rest);
            assert(e[0] == '\\' && e[1] == c);
        } else {
            assert(e.skip(1) =~= rest);
            assert(e[0] == c);
        }
    }
}

} // verus!
