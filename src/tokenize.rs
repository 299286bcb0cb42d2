//! Splitting an expanded string into arguments, respecting quotes.

use vstd::prelude::*;
use crate::chars::{chars_of, string_of};
use crate::parsed_url::strings_view;

verus! {

/// The tokens emitted so far, the token being built, and the open quotes,
/// innermost last.
pub type ScanState = (Seq<Seq<char>>, Seq<char>, Seq<char>);

/// Whether `c` is a quote character.
pub open spec fn is_quote(c: char) -> bool {
    c == '"' || c == '\''
}

/// Whether `c` has the Unicode `White_Space` property.
pub open spec fn is_space(c: char) -> bool {
    ('\u{9}' <= c && c <= '\u{d}') || c == ' ' || c == '\u{85}' || c == '\u{a0}' || c == '\u{1680}'
        || ('\u{2000}' <= c && c <= '\u{200a}') || c == '\u{2028}' || c == '\u{2029}' || c
        == '\u{202f}' || c == '\u{205f}' || c == '\u{3000}'
}

/// The open quotes after reading `c`: a quote closes the innermost open
/// quote where it is the same character, and opens a new one otherwise.
pub open spec fn next_quotes(open: Seq<char>, c: char) -> Seq<char> {
    if is_quote(c) {
        if open.len() > 0 && open.last() == c {
            open.drop_last()
        } else {
            open.push(c)
        }
    } else {
        open
    }
}

/// Reads one character: whitespace outside quotes ends the current token
/// (an empty one is not emitted); any other character joins it.
pub open spec fn scan_step(st: ScanState, c: char) -> ScanState {
    if st.2.len() == 0 && is_space(c) {
        (if st.1.len() > 0 { st.0.push(st.1) } else { st.0 }, Seq::empty(), st.2)
    } else {
        (st.0, st.1.push(c), next_quotes(st.2, c))
    }
}

/// The state after reading all of `s` from `st`.
pub open spec fn scan_from(st: ScanState, s: Seq<char>) -> ScanState
    decreases s.len(),
{
    if s.len() == 0 {
        st
    } else {
        scan_step(scan_from(st, s.drop_last()), s.last())
    }
}

/// The state before anything is read.
pub open spec fn scan_start() -> ScanState {
    (Seq::empty(), Seq::empty(), Seq::empty())
}

/// The tokens of `s`: those emitted while reading it, then the last one if
/// it is not empty.
pub open spec fn tokenize(s: Seq<char>) -> Seq<Seq<char>> {
    let st = scan_from(scan_start(), s);
    if st.1.len() > 0 {
        st.0.push(st.1)
    } else {
        st.0
    }
}

/// The tokens joined with one space between each two.
pub open spec fn join_spaced(ts: Seq<Seq<char>>) -> Seq<char>
    decreases ts.len(),
{
    if ts.len() == 0 {
        Seq::empty()
    } else if ts.len() == 1 {
        ts[0]
    } else {
        join_spaced(ts.drop_last()) + seq![' '] + ts.last()
    }
}

/// The quotes left open after reading `t`.
pub open spec fn quotes_after(t: Seq<char>) -> Seq<char>
    decreases t.len(),
{
    if t.len() == 0 {
        Seq::empty()
    } else {
        next_quotes(quotes_after(t.drop_last()), t.last())
    }
}

/// Whether `t` is a well-formed token: not empty, every whitespace in it
/// inside a quote, and every quote closed by its end.
pub open spec fn well_quoted(t: Seq<char>) -> bool {
    &&& t.len() > 0
    &&& quotes_after(t).len() == 0
    &&& forall|k: int| 0 <= k < t.len() && is_space(t[k]) ==> quotes_after(#[trigger] t.take(k)).len() > 0
}

/// Reading `a` then `b` is reading `a + b`.
pub proof fn lemma_scan_append(st: ScanState, a: Seq<char>, b: Seq<char>)
    ensures
        scan_from(st, a + b) == scan_from(scan_from(st, a), b),
    decreases b.len(),
{
    if b.len() == 0 {
        assert(a + b == a);
    } else {
        lemma_scan_append(st, a, b.drop_last());
        assert((a + b).drop_last() == a + b.drop_last());
        assert((a + b).last() == b.last());
    }
}

/// Reading a well-formed token with no quote open builds exactly that token.
proof fn lemma_scan_token(toks: Seq<Seq<char>>, t: Seq<char>, k: int)
    requires
        well_quoted(t),
        0 <= k <= t.len(),
    ensures
        scan_from((toks, Seq::empty(), Seq::empty()), t.take(k)) == (toks, t.take(k), quotes_after(t.take(k))),
    decreases k,
{
    if k > 0 {
        lemma_scan_token(toks, t, k - 1);
        assert(t.take(k).drop_last() == t.take(k - 1));
        assert(t.take(k).last() == t[k - 1]);
        assert(t.take(k - 1).push(t[k - 1]) == t.take(k));
    } else {
        assert(t.take(0) == Seq::<char>::empty());
    }
}

proof fn lemma_scan_joined(ts: Seq<Seq<char>>)
    requires
        ts.len() > 0,
        forall|k: int| 0 <= k < ts.len() ==> well_quoted(#[trigger] ts[k]),
    ensures
        scan_from(scan_start(), join_spaced(ts)) == (ts.drop_last(), ts.last(), Seq::<char>::empty()),
    decreases ts.len(),
{
    let t = ts.last();
    assert(well_quoted(ts[ts.len() - 1]));
    assert(t.take(t.len() as int) == t);
    if ts.len() == 1 {
        lemma_scan_token(Seq::empty(), t, t.len() as int);
        assert(ts.drop_last() == Seq::<Seq<char>>::empty());
        assert(join_spaced(ts) == t);
        assert(scan_from(scan_start(), t) == (Seq::<Seq<char>>::empty(), t, quotes_after(t)));
    } else {
        let p = ts.drop_last();
        assert forall|k: int| 0 <= k < p.len() implies well_quoted(#[trigger] p[k]) by {
            assert(p[k] == ts[k]);
        }
        lemma_scan_joined(p);
        let j = join_spaced(p);
        lemma_scan_append(scan_start(), j + seq![' '], t);
        lemma_scan_append(scan_start(), j, seq![' ']);
        assert(seq![' '].drop_last() == Seq::<char>::empty());
        assert(well_quoted(ts[ts.len() - 2]));
        assert(p.last() == ts[ts.len() - 2]);
        assert(p.drop_last().push(p.last()) == p);
        let s1 = scan_from(scan_start(), j);
        assert(s1 == (p.drop_last(), p.last(), Seq::<char>::empty()));
        let sp = seq![' '];
        assert(scan_from(s1, sp) == scan_step(scan_from(s1, sp.drop_last()), ' '));
        assert(scan_from(s1, Seq::<char>::empty()) == s1);
        assert(is_space(' '));
        assert(scan_from(s1, sp) == (p, Seq::<char>::empty(), Seq::<char>::empty()));
        lemma_scan_token(p, t, t.len() as int);
        assert(join_spaced(ts) == j + sp + t);
    }
}

/// Joining well-formed tokens with single spaces and splitting the result
/// gives back the tokens.
pub proof fn law_tokenize_joined(ts: Seq<Seq<char>>)
    requires
        forall|k: int| 0 <= k < ts.len() ==> well_quoted(#[trigger] ts[k]),
    ensures
        tokenize(join_spaced(ts)) == ts,
{
    if ts.len() > 0 {
        lemma_scan_joined(ts);
        assert(well_quoted(ts[ts.len() - 1]));
        assert(ts.drop_last().push(ts.last()) == ts);
    }
}

proof fn lemma_scan_tokens_non_empty(s: Seq<char>)
    ensures
        forall|k: int| 0 <= k < scan_from(scan_start(), s).0.len() ==> (#[trigger] scan_from(scan_start(), s).0[k]).len() > 0,
    decreases s.len(),
{
    if s.len() > 0 {
        lemma_scan_tokens_non_empty(s.drop_last());
        let before = scan_from(scan_start(), s.drop_last());
        let after = scan_from(scan_start(), s);
        assert(after == scan_step(before, s.last()));
        assert forall|k: int| 0 <= k < after.0.len() implies (#[trigger] after.0[k]).len() > 0 by {
            if k < before.0.len() {
                assert(after.0[k] == before.0[k]);
            }
        }
    }
}

/// No token is empty, whatever the whitespace around it; the empty text has
/// no tokens.
pub proof fn law_tokens_non_empty(s: Seq<char>)
    ensures
        forall|k: int| 0 <= k < tokenize(s).len() ==> (#[trigger] tokenize(s)[k]).len() > 0,
        s.len() == 0 ==> tokenize(s).len() == 0,
{
    lemma_scan_tokens_non_empty(s);
}

/// Whether `c` has the Unicode `White_Space` property.
pub fn is_whitespace(c: char) -> (r: bool)
    ensures
        r == is_space(c),
{
    ('\u{9}' <= c && c <= '\u{d}') || c == ' ' || c == '\u{85}' || c == '\u{a0}' || c == '\u{1680}'
        || ('\u{2000}' <= c && c <= '\u{200a}') || c == '\u{2028}' || c == '\u{2029}' || c
        == '\u{202f}' || c == '\u{205f}' || c == '\u{3000}'
}

/// Splits `args` at whitespace that stands outside quotes.
///
/// Quote characters stay in the tokens; runs of whitespace give no empty
/// tokens; an unclosed quote takes in the rest of the input.
pub fn split_args(args: &str) -> (r: Vec<String>)
    ensures
        strings_view(r@) == tokenize(args@),
{
    let cs = chars_of(args);
    let mut res: Vec<String> = Vec::new();
    let mut current: Vec<char> = Vec::new();
    let mut open: Vec<char> = Vec::new();
    let mut k: usize = 0;
    while k < cs.len()
        invariant
            k <= cs.len(),
            cs@ == args@,
            (strings_view(res@), current@, open@) == scan_from(scan_start(), cs@.take(k as int)),
        decreases cs.len() - k,
    {
        let c = cs[k];
        assert(cs@.take(k + 1 as int).drop_last() == cs@.take(k as int));
        assert(cs@.take(k + 1 as int).last() == c);
        if open.len() == 0 && is_whitespace(c) {
            if current.len() > 0 {
                let ghost prev = res@;
                res.push(string_of(current.as_slice()));
                assert(strings_view(res@) == strings_view(prev).push(current@));
            }
            current = Vec::new();
        } else {
            current.push(c);
            if c == '"' || c == '\'' {
                if open.len() > 0 && open[open.len() - 1] == c {
                    open.pop();
                } else {
                    open.push(c);
                }
            }
        }
        k = k + 1;
    }
    assert(cs@.take(cs.len() as int) == cs@);
    if current.len() > 0 {
        let ghost prev = res@;
        res.push(string_of(current.as_slice()));
        assert(strings_view(res@) == strings_view(prev).push(current@));
    }
    res
}

} // verus!
