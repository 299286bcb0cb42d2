//! Named (`{key}`) and positional (`%N`) placeholders.

use vstd::prelude::*;
use crate::chars::{chars_of, string_of};
use crate::parsed_url::{ParsedUrl, pairs_view};
use crate::substitute::{
    Dict, dict_view, entry_found, is_digit, lemma_substitute_untouched, lemma_substitute_whole,
    occurs_at, substitute, substitute_tokens,
};

verus! {

/// The placeholder `{key}`.
pub open spec fn braced(key: Seq<char>) -> Seq<char> {
    seq!['{'] + key + seq!['}']
}

/// Each query pair as the placeholder of its key and the value.
pub open spec fn named_dict(q: Seq<(Seq<char>, Seq<char>)>) -> Dict {
    q.map_values(|p: (Seq<char>, Seq<char>)| (braced(p.0), p.1))
}

/// `s` with each `{key}` of the query pairs replaced, in one pass.
pub open spec fn expand_named_spec(s: Seq<char>, q: Seq<(Seq<char>, Seq<char>)>) -> Seq<char> {
    substitute(s, named_dict(q), false)
}

/// The decimal digit for `n`, which is below ten.
pub open spec fn digit(n: int) -> char {
    if n == 0 {
        '0'
    } else if n == 1 {
        '1'
    } else if n == 2 {
        '2'
    } else if n == 3 {
        '3'
    } else if n == 4 {
        '4'
    } else if n == 5 {
        '5'
    } else if n == 6 {
        '6'
    } else if n == 7 {
        '7'
    } else if n == 8 {
        '8'
    } else {
        '9'
    }
}

/// The decimal form of `n`, without leading zeros.
pub open spec fn decimal(n: nat) -> Seq<char>
    decreases n,
{
    if n < 10 {
        seq![digit(n as int)]
    } else {
        decimal(n / 10).push(digit((n % 10) as int))
    }
}

/// The placeholder `%i`.
pub open spec fn percent(i: nat) -> Seq<char> {
    seq!['%'] + decimal(i)
}

/// Each positional argument as the placeholder `%i` of its 1-based index and the argument.
pub open spec fn positional_dict(a: Seq<Seq<char>>) -> Dict {
    Seq::new(a.len(), |k: int| (percent((k + 1) as nat), a[k]))
}

/// `s` with each `%i` replaced by the `i`-th argument, in one pass; a
/// placeholder is read with its whole run of digits, so `%1` is never found
/// inside `%12`.
pub open spec fn expand_args_spec(s: Seq<char>, a: Seq<Seq<char>>) -> Seq<char> {
    substitute(s, positional_dict(a), true)
}

/// The views of a sequence of string slices.
pub open spec fn strs_view(v: Seq<&str>) -> Seq<Seq<char>> {
    v.map_values(|x: &str| x@)
}

/// The placeholder of the last query pair with a given key expands to that
/// pair's value.
pub proof fn law_named_placeholder(q: Seq<(Seq<char>, Seq<char>)>, j: int)
    requires
        0 <= j < q.len(),
        forall|k: int| j < k < q.len() ==> q[k].0 != q[j].0,
    ensures
        expand_named_spec(braced(q[j].0), q) == q[j].1,
{
    let s = braced(q[j].0);
    let d = named_dict(q);
    assert forall|k: int| j < k < d.len() implies d[k].0 != s by {
        if d[k].0 == s {
            assert(q[k].0 == s.subrange(1, s.len() - 1));
            assert(q[j].0 == s.subrange(1, s.len() - 1));
        }
    }
    lemma_substitute_whole(s, d, j, false);
}

/// A text in which no query key's placeholder occurs, such as `{m}` for a
/// key `m` that no pair has, is left as it is.
pub proof fn law_named_untouched(s: Seq<char>, q: Seq<(Seq<char>, Seq<char>)>)
    requires
        forall|p: int, k: int| 0 <= k < q.len() ==> !#[trigger] occurs_at(s, p, braced(q[k].0)),
    ensures
        expand_named_spec(s, q) == s,
{
    let d = named_dict(q);
    assert forall|p: int, k: int| 0 <= p < s.len() && 0 <= k < d.len() implies !entry_found(
        s,
        p,
        d,
        k,
        false,
    ) by {
        assert(d[k].0 == braced(q[k].0));
    }
    lemma_substitute_untouched(s, 0, d, false);
    assert(s.subrange(0, s.len() as int) == s);
}

/// The decimal form of a number is not empty and holds digits alone.
pub proof fn lemma_decimal_digits(n: nat)
    ensures
        decimal(n).len() >= 1,
        n >= 10 ==> decimal(n).len() >= 2,
        forall|k: int| 0 <= k < decimal(n).len() ==> is_digit(#[trigger] decimal(n)[k]),
    decreases n,
{
    if n >= 10 {
        lemma_decimal_digits(n / 10);
    }
}

/// Different digits are different characters.
pub proof fn lemma_digit_injective(a: int, b: int)
    requires
        0 <= a < 10,
        0 <= b < 10,
        digit(a) == digit(b),
    ensures
        a == b,
{
}

/// Different numbers have different decimal forms.
pub proof fn lemma_decimal_injective(m: nat, n: nat)
    requires
        decimal(m) == decimal(n),
    ensures
        m == n,
    decreases m,
{
    lemma_decimal_digits(m);
    lemma_decimal_digits(n);
    if m >= 10 && n >= 10 {
        assert(decimal(m / 10) == decimal(m).drop_last());
        assert(decimal(n / 10) == decimal(n).drop_last());
        lemma_decimal_injective(m / 10, n / 10);
        assert(decimal(m).last() == digit((m % 10) as int));
        assert(decimal(n).last() == digit((n % 10) as int));
        lemma_digit_injective((m % 10) as int, (n % 10) as int);
    } else if m < 10 && n < 10 {
        assert(decimal(m)[0] == digit(m as int));
        assert(decimal(n)[0] == digit(n as int));
        lemma_digit_injective(m as int, n as int);
    }
}

/// With `N` arguments, `%i` for `1 <= i <= N` expands to the `i`-th argument.
pub proof fn law_positional_placeholder(a: Seq<Seq<char>>, i: int)
    requires
        1 <= i <= a.len(),
    ensures
        expand_args_spec(percent(i as nat), a) == a[i - 1],
{
    let s = percent(i as nat);
    let d = positional_dict(a);
    lemma_decimal_digits(i as nat);
    assert forall|k: int| i - 1 < k < d.len() implies d[k].0 != s by {
        if d[k].0 == s {
            assert(decimal((k + 1) as nat) == s.drop_first());
            assert(decimal(i as nat) == s.drop_first());
            lemma_decimal_injective((k + 1) as nat, i as nat);
        }
    }
    lemma_substitute_whole(s, d, i - 1, true);
}

/// With `N` arguments, `%i` for `i > N` is left as it is.
pub proof fn law_positional_beyond(a: Seq<Seq<char>>, i: int)
    requires
        i > a.len(),
    ensures
        expand_args_spec(percent(i as nat), a) == percent(i as nat),
{
    let s = percent(i as nat);
    let di = decimal(i as nat);
    let d = positional_dict(a);
    lemma_decimal_digits(i as nat);
    assert forall|q: int| 1 <= q < s.len() implies is_digit(s[q]) by {
        assert(s[q] == di[q - 1]);
    }
    assert forall|p: int, k: int| 0 <= p < s.len() && 0 <= k < d.len() implies !entry_found(
        s,
        p,
        d,
        k,
        true,
    ) by {
        lemma_decimal_digits((k + 1) as nat);
        let t = d[k].0;
        if entry_found(s, p, d, k, true) {
            assert(t[0] == '%');
            assert(s.subrange(p, p + t.len())[0] == s[p]);
            assert(p == 0);
            assert(t.len() == s.len());
            assert(s.subrange(0, s.len() as int) == s);
            assert(t == s);
            assert(decimal((k + 1) as nat) == t.drop_first());
            assert(di == s.drop_first());
            lemma_decimal_injective((k + 1) as nat, i as nat);
        }
    }
    lemma_substitute_untouched(s, 0, d, true);
    assert(s.subrange(0, s.len() as int) == s);
}

/// Replaces each `{key}` in `s` by the value of the query pair with that key.
///
/// Among pairs with the same key the later one wins; a placeholder without a
/// pair is left as it is; inserted values are not scanned again.
pub fn expand_named(s: &str, url: &ParsedUrl) -> (r: String)
    ensures
        r@ == expand_named_spec(s@, url.query_view()),
{
    let ghost q = url.query_view();
    let mut d: Vec<(Vec<char>, Vec<char>)> = Vec::new();
    let mut k: usize = 0;
    while k < url.query.len()
        invariant
            k <= url.query.len(),
            q == pairs_view(url.query@),
            dict_view(d@) == named_dict(q.take(k as int)),
        decreases url.query.len() - k,
    {
        let mut token: Vec<char> = Vec::new();
        token.push('{');
        let mut key = chars_of(url.query[k].0.as_str());
        token.append(&mut key);
        token.push('}');
        let value = chars_of(url.query[k].1.as_str());
        assert(q[k as int] == (url.query@[k as int].0@, url.query@[k as int].1@));
        assert(token@ =~= braced(q[k as int].0));
        let ghost prev = d@;
        d.push((token, value));
        assert(dict_view(d@) == dict_view(prev).push((braced(q[k as int].0), q[k as int].1)));
        k = k + 1;
        assert(q.take(k as int) == q.take(k - 1).push(q[k - 1]));
    }
    assert(q.take(url.query.len() as int) == q);
    let text = chars_of(s);
    let out = substitute_tokens(&text, &d, false);
    string_of(out.as_slice())
}

/// The decimal digit for `n`.
fn digit_char(n: usize) -> (c: char)
    requires
        n < 10,
    ensures
        c == digit(n as int),
{
    if n == 0 {
        '0'
    } else if n == 1 {
        '1'
    } else if n == 2 {
        '2'
    } else if n == 3 {
        '3'
    } else if n == 4 {
        '4'
    } else if n == 5 {
        '5'
    } else if n == 6 {
        '6'
    } else if n == 7 {
        '7'
    } else if n == 8 {
        '8'
    } else {
        '9'
    }
}

/// The decimal form of `n`.
pub fn decimal_chars(n: usize) -> (r: Vec<char>)
    ensures
        r@ == decimal(n as nat),
    decreases n,
{
    if n < 10 {
        let mut v: Vec<char> = Vec::new();
        v.push(digit_char(n));
        v
    } else {
        let mut v = decimal_chars(n / 10);
        v.push(digit_char(n % 10));
        v
    }
}

/// Replaces each `%i` in `s` by `argv[i - 1]`, for `i` from 1 to the number
/// of arguments.
///
/// A placeholder is read with its whole run of digits: `%12` is index 12,
/// never index 1 followed by `2`. Indices beyond the arguments, and digit
/// runs with a leading zero, are left as they are; inserted arguments are not
/// scanned again.
pub fn expand_args(s: &str, argv: &[&str]) -> (r: String)
    ensures
        r@ == expand_args_spec(s@, strs_view(argv@)),
{
    let ghost a = strs_view(argv@);
    let mut d: Vec<(Vec<char>, Vec<char>)> = Vec::new();
    let mut k: usize = 0;
    while k < argv.len()
        invariant
            k <= argv.len(),
            a == strs_view(argv@),
            dict_view(d@) == positional_dict(a).take(k as int),
        decreases argv.len() - k,
    {
        let mut token: Vec<char> = Vec::new();
        token.push('%');
        let mut digits = decimal_chars(k + 1);
        token.append(&mut digits);
        let value = chars_of(argv[k]);
        let ghost prev = d@;
        d.push((token, value));
        assert(dict_view(d@) == dict_view(prev).push(positional_dict(a)[k as int]));
        k = k + 1;
        assert(positional_dict(a).take(k as int) == positional_dict(a).take(k - 1).push(
            positional_dict(a)[k - 1],
        ));
    }
    assert(positional_dict(a).take(argv.len() as int) == positional_dict(a));
    let text = chars_of(s);
    let out = substitute_tokens(&text, &d, true);
    string_of(out.as_slice())
}

} // verus!
