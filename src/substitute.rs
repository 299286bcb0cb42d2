//! Single-pass substitution of tokens drawn from a dictionary.
//!
//! The input is scanned once from left to right. At each position the entry
//! with the longest token found there is replaced by its value, the later
//! entry winning among tokens of equal length; where no token starts, the
//! character is copied. Inserted values are never scanned again. Where the
//! scan is digit-bounded, a token counts as found only where no digit
//! follows it, so that `%1` is never found inside `%12`.

use vstd::prelude::*;
use crate::chars::push_all;

verus! {

/// A dictionary of `(token, value)` entries, as character sequences.
pub type Dict = Seq<(Seq<char>, Seq<char>)>;

/// The dictionary held by a vector of character-vector pairs.
pub open spec fn dict_view(d: Seq<(Vec<char>, Vec<char>)>) -> Dict {
    d.map_values(|e: (Vec<char>, Vec<char>)| (e.0@, e.1@))
}

/// Whether `t` occurs in `s` starting at position `i`.
pub open spec fn occurs_at(s: Seq<char>, i: int, t: Seq<char>) -> bool {
    0 <= i && i + t.len() <= s.len() && s.subrange(i, i + t.len()) == t
}

/// Whether `c` is an ASCII decimal digit.
pub open spec fn is_digit(c: char) -> bool {
    '0' <= c && c <= '9'
}

/// Whether position `j` of `s` is the end of the text or, where `bounded`
/// holds, a character other than a digit.
pub open spec fn clear_after(s: Seq<char>, j: int, bounded: bool) -> bool {
    !bounded || j >= s.len() || !is_digit(s[j])
}

/// Whether entry `k` of `d` has a non-empty token that occurs in `s` at `i`
/// (and, where `bounded` holds, is not followed by a digit).
pub open spec fn entry_found(s: Seq<char>, i: int, d: Dict, k: int, bounded: bool) -> bool {
    d[k].0.len() > 0 && occurs_at(s, i, d[k].0) && clear_after(s, i + d[k].0.len(), bounded)
}

/// The entry chosen at position `i`: the longest token found there, the later
/// entry among equal lengths.
pub open spec fn best_entry(s: Seq<char>, i: int, d: Dict, bounded: bool) -> Option<int>
    decreases d.len(),
{
    if d.len() == 0 {
        None
    } else {
        let j = d.len() - 1;
        let rest = best_entry(s, i, d.drop_last(), bounded);
        if entry_found(s, i, d, j, bounded) && (match rest {
            None => true,
            Some(b) => d[b].0.len() <= d[j].0.len(),
        }) {
            Some(j)
        } else {
            rest
        }
    }
}

/// The substitution of `s` from position `i` on.
pub open spec fn substitute_from(s: Seq<char>, i: int, d: Dict, bounded: bool) -> Seq<char>
    decreases s.len() - i,
{
    if i < 0 || i >= s.len() {
        Seq::empty()
    } else {
        match best_entry(s, i, d, bounded) {
            Some(j) => {
                if 0 <= j < d.len() && 0 < d[j].0.len() <= s.len() - i {
                    d[j].1 + substitute_from(s, i + d[j].0.len(), d, bounded)
                } else {
                    seq![s[i]] + substitute_from(s, i + 1, d, bounded)
                }
            },
            None => seq![s[i]] + substitute_from(s, i + 1, d, bounded),
        }
    }
}

/// The substitution of all of `s`.
pub open spec fn substitute(s: Seq<char>, d: Dict, bounded: bool) -> Seq<char> {
    substitute_from(s, 0, d, bounded)
}

/// What the choice at one position guarantees.
pub proof fn lemma_best_entry(s: Seq<char>, i: int, d: Dict, bounded: bool)
    ensures
        match best_entry(s, i, d, bounded) {
            Some(j) => {
                &&& 0 <= j < d.len()
                &&& entry_found(s, i, d, j, bounded)
                &&& forall|k: int|
                    0 <= k < d.len() && #[trigger] entry_found(s, i, d, k, bounded) ==> d[k].0.len()
                        <= d[j].0.len() && (d[k].0.len() == d[j].0.len() ==> k <= j)
            },
            None => forall|k: int| 0 <= k < d.len() ==> !#[trigger] entry_found(s, i, d, k, bounded),
        },
    decreases d.len(),
{
    if d.len() > 0 {
        let p = d.drop_last();
        lemma_best_entry(s, i, p, bounded);
        assert forall|k: int| 0 <= k < p.len() implies #[trigger] entry_found(s, i, p, k, bounded)
            == entry_found(s, i, d, k, bounded) by {
            assert(p[k] == d[k]);
        }
        let j = d.len() - 1;
        match best_entry(s, i, p, bounded) {
            Some(b) => {
                assert(entry_found(s, i, d, b, bounded));
            },
            None => {},
        }
        assert forall|k: int| 0 <= k < d.len() && k != j implies #[trigger] entry_found(s, i, d, k, bounded)
            == entry_found(s, i, p, k, bounded) by {
            assert(p[k] == d[k]);
        }
    }
}

/// Where no entry's token occurs, the text is left as it is.
pub proof fn lemma_substitute_untouched(s: Seq<char>, i: int, d: Dict, bounded: bool)
    requires
        0 <= i <= s.len(),
        forall|p: int, k: int| i <= p < s.len() && 0 <= k < d.len() ==> !entry_found(s, p, d, k, bounded),
    ensures
        substitute_from(s, i, d, bounded) == s.subrange(i, s.len() as int),
    decreases s.len() - i,
{
    if i < s.len() {
        lemma_best_entry(s, i, d, bounded);
        lemma_substitute_untouched(s, i + 1, d, bounded);
        assert(s.subrange(i, s.len() as int) == seq![s[i]] + s.subrange(i + 1, s.len() as int));
    }
}

/// Where the whole text is the token of entry `j` and of no later entry, the
/// result is that entry's value.
pub proof fn lemma_substitute_whole(s: Seq<char>, d: Dict, j: int, bounded: bool)
    requires
        0 <= j < d.len(),
        s.len() > 0,
        d[j].0 == s,
        forall|k: int| j < k < d.len() ==> d[k].0 != s,
    ensures
        substitute(s, d, bounded) == d[j].1,
{
    lemma_best_entry(s, 0, d, bounded);
    assert(s.subrange(0, s.len() as int) == s);
    assert(entry_found(s, 0, d, j, bounded));
    let b = best_entry(s, 0, d, bounded)->0;
    assert(d[b].0.len() == s.len());
    assert(d[b].0 == s) by {
        assert(s.subrange(0, d[b].0.len() as int) == d[b].0);
    }
    assert(b == j);
    assert(substitute_from(s, s.len() as int, d, bounded) == Seq::<char>::empty());
    assert(d[j].1 + Seq::<char>::empty() == d[j].1);
}

/// Whether `t` occurs in `s` at `i`.
fn token_at(s: &Vec<char>, i: usize, t: &Vec<char>) -> (r: bool)
    ensures
        r == occurs_at(s@, i as int, t@),
{
    if t.len() > s.len() || i > s.len() - t.len() {
        return false;
    }
    let mut k: usize = 0;
    while k < t.len()
        invariant
            k <= t.len(),
            i + t.len() <= s.len(),
            s@.subrange(i as int, i + k) == t@.subrange(0, k as int),
        decreases t.len() - k,
    {
        if s[i + k] != t[k] {
            assert(s@.subrange(i as int, i + t.len())[k as int] == s@[i + k]);
            return false;
        }
        k = k + 1;
        assert(s@.subrange(i as int, i + k) == s@.subrange(i as int, i + k - 1).push(s@[i + k - 1]));
        assert(t@.subrange(0, k as int) == t@.subrange(0, k - 1).push(t@[k - 1]));
    }
    assert(t@.subrange(0, t.len() as int) == t@);
    true
}

/// Whether `c` is an ASCII decimal digit.
fn digit_char(c: char) -> (r: bool)
    ensures
        r == is_digit(c),
{
    '0' <= c && c <= '9'
}

/// The entry chosen at position `i`.
fn best_at(s: &Vec<char>, i: usize, d: &Vec<(Vec<char>, Vec<char>)>, bounded: bool) -> (r: Option<
    usize,
>)
    ensures
        r matches Some(j) ==> best_entry(s@, i as int, dict_view(d@), bounded) == Some(j as int),
        r is None ==> best_entry(s@, i as int, dict_view(d@), bounded) is None,
{
    let ghost dv = dict_view(d@);
    let mut best: Option<usize> = None;
    let mut k: usize = 0;
    while k < d.len()
        invariant
            k <= d.len(),
            dv == dict_view(d@),
            best matches Some(j) ==> best_entry(s@, i as int, dv.take(k as int), bounded) == Some(
                j as int,
            ) && j < k,
            best is None ==> best_entry(s@, i as int, dv.take(k as int), bounded) is None,
        decreases d.len() - k,
    {
        assert(dv.take(k + 1 as int).drop_last() == dv.take(k as int));
        let t = &d[k].0;
        if t.len() > 0 && token_at(s, i, t) {
            assert(t@ == dv[k as int].0);
            assert(i + t.len() <= s.len());
            let end = i + t.len();
            let clear = !bounded || end >= s.len() || !digit_char(s[end]);
            if clear {
                let longer = match best {
                    None => true,
                    Some(b) => d[b].0.len() <= t.len(),
                };
                if longer {
                    best = Some(k);
                }
            }
        }
        k = k + 1;
    }
    assert(dv.take(d.len() as int) == dv);
    best
}

/// Replaces, in one left-to-right pass over `s`, each token of `d` by its
/// value; where `bounded` holds, only tokens that no digit follows.
pub fn substitute_tokens(s: &Vec<char>, d: &Vec<(Vec<char>, Vec<char>)>, bounded: bool) -> (r: Vec<
    char,
>)
    ensures
        r@ == substitute(s@, dict_view(d@), bounded),
{
    let ghost dv = dict_view(d@);
    let mut out: Vec<char> = Vec::new();
    let mut i: usize = 0;
    while i < s.len()
        invariant
            i <= s.len(),
            dv == dict_view(d@),
            out@ + substitute_from(s@, i as int, dv, bounded) == substitute(s@, dv, bounded),
        decreases s.len() - i,
    {
        proof {
            lemma_best_entry(s@, i as int, dv, bounded);
        }
        match best_at(s, i, d, bounded) {
            Some(j) => {
                let ghost before = out@;
                push_all(&mut out, &d[j].1);
                assert(dv[j as int] == (d@[j as int].0@, d@[j as int].1@));
                assert(entry_found(s@, i as int, dv, j as int, bounded));
                i = i + d[j].0.len();
                assert(before + (d@[j as int].1@ + substitute_from(s@, i as int, dv, bounded))
                    == out@ + substitute_from(s@, i as int, dv, bounded));
            },
            None => {
                let ghost before = out@;
                out.push(s[i]);
                i = i + 1;
                assert(before + (seq![s@[i - 1]] + substitute_from(s@, i as int, dv, bounded))
                    == out@ + substitute_from(s@, i as int, dv, bounded));
            },
        }
    }
    assert(out@ + Seq::<char>::empty() == out@);
    out
}

} // verus!
