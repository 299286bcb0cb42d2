//! Environment placeholders: `%NAME%`.

use vstd::prelude::*;
use crate::chars::{chars_of, push_all, string_of};
use crate::error::ExpansionError;
use crate::parsed_url::pairs_view;

verus! {

/// Whether `c` may stand in a variable name: a letter, a digit or one of `_(){}[]$\;!?`.
pub open spec fn is_name_char(c: char) -> bool {
    ('a' <= c && c <= 'z') || ('A' <= c && c <= 'Z') || ('0' <= c && c <= '9') || c == '_'
        || c == '(' || c == ')' || c == '{' || c == '}' || c == '[' || c == ']' || c == '$'
        || c == '\\' || c == ';' || c == '!' || c == '?'
}

/// The end of the run of name characters that starts at `k`.
pub open spec fn name_end(s: Seq<char>, k: int) -> int
    decreases s.len() - k,
{
    if 0 <= k < s.len() && is_name_char(s[k]) {
        name_end(s, k + 1)
    } else {
        k
    }
}

/// Whether a token `%NAME%` starts at `i`: a '%', a non-empty run of name
/// characters, and a '%' right after it.
pub open spec fn env_token_at(s: Seq<char>, i: int) -> bool {
    0 <= i < s.len() && s[i] == '%' && i + 1 < name_end(s, i + 1) < s.len() && s[name_end(
        s,
        i + 1,
    )] == '%'
}

/// The name in the token that starts at `i`.
pub open spec fn token_name(s: Seq<char>, i: int) -> Seq<char> {
    s.subrange(i + 1, name_end(s, i + 1))
}

/// The value of the first entry from `k` on whose name is `name`.
pub open spec fn lookup_from(env: Seq<(Seq<char>, Seq<char>)>, name: Seq<char>, k: int) -> Option<
    Seq<char>,
>
    decreases env.len() - k,
{
    if k < 0 || k >= env.len() {
        None
    } else if env[k].0 == name {
        Some(env[k].1)
    } else {
        lookup_from(env, name, k + 1)
    }
}

/// The value of the first entry whose name is `name`.
pub open spec fn lookup(env: Seq<(Seq<char>, Seq<char>)>, name: Seq<char>) -> Option<Seq<char>> {
    lookup_from(env, name, 0)
}

/// Puts `pre` in front of a successful expansion.
pub open spec fn prefixed(pre: Seq<char>, r: Result<Seq<char>, Seq<char>>) -> Result<
    Seq<char>,
    Seq<char>,
> {
    match r {
        Ok(t) => Ok(pre + t),
        Err(n) => Err(n),
    }
}

/// The expansion of `s` from position `i` on: each token is replaced by the
/// variable's value, and the first token whose variable is unset fails with
/// its name.
pub open spec fn env_from(s: Seq<char>, i: int, env: Seq<(Seq<char>, Seq<char>)>) -> Result<
    Seq<char>,
    Seq<char>,
>
    decreases s.len() - i,
{
    if i < 0 || i >= s.len() {
        Ok(Seq::empty())
    } else if env_token_at(s, i) {
        match lookup(env, token_name(s, i)) {
            None => Err(token_name(s, i)),
            Some(v) => prefixed(v, env_from(s, name_end(s, i + 1) + 1, env)),
        }
    } else {
        prefixed(seq![s[i]], env_from(s, i + 1, env))
    }
}

/// The expansion of all of `s`.
pub open spec fn env_expand(s: Seq<char>, env: Seq<(Seq<char>, Seq<char>)>) -> Result<
    Seq<char>,
    Seq<char>,
> {
    env_from(s, 0, env)
}

/// The names of the tokens that the expansion meets from `i` on, in order.
pub open spec fn env_names_from(s: Seq<char>, i: int) -> Seq<Seq<char>>
    decreases s.len() - i,
{
    if i < 0 || i >= s.len() {
        Seq::empty()
    } else if env_token_at(s, i) {
        seq![token_name(s, i)] + env_names_from(s, name_end(s, i + 1) + 1)
    } else {
        env_names_from(s, i + 1)
    }
}

/// The names of the tokens in `s`, in order.
pub open spec fn env_names(s: Seq<char>) -> Seq<Seq<char>> {
    env_names_from(s, 0)
}

/// Whether some name among `names` is not held by `env`.
pub open spec fn some_unset(names: Seq<Seq<char>>, env: Seq<(Seq<char>, Seq<char>)>) -> bool {
    exists|k: int| 0 <= k < names.len() && (#[trigger] lookup(env, names[k])) is None
}

/// Whether `x` is the first name among `names` that `env` does not hold.
pub open spec fn first_unset(names: Seq<Seq<char>>, env: Seq<(Seq<char>, Seq<char>)>, x: Seq<char>) -> bool {
    exists|k: int|
        0 <= k < names.len() && names[k] == x && lookup(env, x) is None && forall|j: int|
            0 <= j < k ==> (#[trigger] lookup(env, names[j])) is Some
}

proof fn lemma_env_from(s: Seq<char>, i: int, env: Seq<(Seq<char>, Seq<char>)>)
    requires
        0 <= i <= s.len(),
    ensures
        env_from(s, i, env) is Err <==> some_unset(env_names_from(s, i), env),
        env_from(s, i, env) matches Err(x) ==> first_unset(env_names_from(s, i), env, x),
        env_names_from(s, i).len() == 0 ==> env_from(s, i, env) == Ok::<Seq<char>, Seq<char>>(s.subrange(i, s.len() as int)),
    decreases s.len() - i,
{
    let names = env_names_from(s, i);
    if i < s.len() {
        if env_token_at(s, i) {
            let e = name_end(s, i + 1) + 1;
            let rest = env_names_from(s, e);
            lemma_env_from(s, e, env);
            assert(names == seq![token_name(s, i)] + rest);
            assert(names[0] == token_name(s, i));
            if lookup(env, token_name(s, i)) is None {
                assert(some_unset(names, env));
                assert(first_unset(names, env, token_name(s, i)));
            } else {
                assert forall|k: int| 0 <= k < rest.len() implies names[k + 1] == rest[k] by {}
                if some_unset(rest, env) {
                    let k = choose|k: int| 0 <= k < rest.len() && (#[trigger] lookup(env, rest[k])) is None;
                    assert(lookup(env, names[k + 1]) is None);
                }
                if some_unset(names, env) {
                    let k = choose|k: int| 0 <= k < names.len() && (#[trigger] lookup(env, names[k])) is None;
                    assert(k > 0);
                    assert(lookup(env, rest[k - 1]) is None);
                }
                if let Err(x) = env_from(s, i, env) {
                    let k = choose|k: int|
                        0 <= k < rest.len() && rest[k] == x && lookup(env, x) is None && forall|j: int|
                            0 <= j < k ==> (#[trigger] lookup(env, rest[j])) is Some;
                    assert forall|j: int| 0 <= j < k + 1 implies (#[trigger] lookup(env, names[j])) is Some by {
                        if j > 0 {
                            assert(names[j] == rest[j - 1]);
                        }
                    }
                    assert(first_unset(names, env, x));
                }
            }
        } else {
            lemma_env_from(s, i + 1, env);
            assert(s.subrange(i, s.len() as int) == seq![s[i]] + s.subrange(i + 1, s.len() as int));
        }
    } else {
        assert(s.subrange(i, s.len() as int) == Seq::<char>::empty());
    }
}

/// The expansion fails exactly when a token names a variable that the
/// environment does not hold, and then with the first such name.
pub proof fn law_env_missing(s: Seq<char>, env: Seq<(Seq<char>, Seq<char>)>)
    ensures
        env_expand(s, env) is Err <==> some_unset(env_names(s), env),
        env_expand(s, env) matches Err(x) ==> first_unset(env_names(s), env, x),
{
    lemma_env_from(s, 0, env);
}

/// A text that holds no token expands to itself, whatever the environment.
pub proof fn law_env_no_tokens(s: Seq<char>, env: Seq<(Seq<char>, Seq<char>)>)
    requires
        env_names(s).len() == 0,
    ensures
        env_expand(s, env) == Ok::<Seq<char>, Seq<char>>(s),
{
    lemma_env_from(s, 0, env);
    assert(s.subrange(0, s.len() as int) == s);
}

/// Whether `c` may stand in a variable name.
fn name_char(c: char) -> (r: bool)
    ensures
        r == is_name_char(c),
{
    ('a' <= c && c <= 'z') || ('A' <= c && c <= 'Z') || ('0' <= c && c <= '9') || c == '_'
        || c == '(' || c == ')' || c == '{' || c == '}' || c == '[' || c == ']' || c == '$'
        || c == '\\' || c == ';' || c == '!' || c == '?'
}

/// The end of the run of name characters that starts at `k`.
fn run_end(s: &Vec<char>, k: usize) -> (r: usize)
    requires
        k <= s.len(),
    ensures
        r as int == name_end(s@, k as int),
        k <= r <= s.len(),
{
    let mut j = k;
    while j < s.len() && name_char(s[j])
        invariant
            k <= j <= s.len(),
            name_end(s@, k as int) == name_end(s@, j as int),
        decreases s.len() - j,
    {
        j = j + 1;
    }
    j
}

/// The value of the first entry of `env` whose name is `name`.
fn find_value(env: &Vec<(String, String)>, name: &String) -> (r: Option<String>)
    ensures
        r matches Some(v) ==> lookup(pairs_view(env@), name@) == Some(v@),
        r is None ==> lookup(pairs_view(env@), name@) is None,
{
    let ghost ev = pairs_view(env@);
    let mut k: usize = 0;
    while k < env.len()
        invariant
            k <= env.len(),
            ev == pairs_view(env@),
            lookup(ev, name@) == lookup_from(ev, name@, k as int),
        decreases env.len() - k,
    {
        if env[k].0 == *name {
            return Some(env[k].1.clone());
        }
        k = k + 1;
    }
    None
}

/// Replaces each `%NAME%` token of `s` by the value of `NAME` in `env`.
///
/// Fails with the name of the first token, from the left, whose variable
/// `env` does not hold. The tokens are found in one left-to-right pass over
/// `s`, and inserted values are not scanned again.
pub fn expand_env(s: &str, env: &Vec<(String, String)>) -> (r: Result<String, ExpansionError>)
    ensures
        match (r, env_expand(s@, pairs_view(env@))) {
            (Ok(t), Ok(x)) => t@ == x,
            (Err(ExpansionError::EnvironmentVariableMissing(n)), Err(x)) => n@ == x,
            _ => false,
        },
{
    let ghost ev = pairs_view(env@);
    let cs = chars_of(s);
    let mut out: Vec<char> = Vec::new();
    let mut i: usize = 0;
    while i < cs.len()
        invariant
            i <= cs.len(),
            cs@ == s@,
            ev == pairs_view(env@),
            env_expand(cs@, ev) == prefixed(out@, env_from(cs@, i as int, ev)),
        decreases cs.len() - i,
    {
        let mut is_token = false;
        let mut e: usize = i;
        if cs[i] == '%' {
            e = run_end(&cs, i + 1);
            is_token = e > i + 1 && e < cs.len() && cs[e] == '%';
        }
        if is_token {
            let mut name: Vec<char> = Vec::new();
            let mut k: usize = i + 1;
            while k < e
                invariant
                    i + 1 <= k <= e < cs.len(),
                    name@ == cs@.subrange(i + 1, k as int),
                decreases e - k,
            {
                name.push(cs[k]);
                k = k + 1;
            }
            let name = string_of(name.as_slice());
            match find_value(env, &name) {
                None => {
                    return Err(ExpansionError::EnvironmentVariableMissing(name));
                },
                Some(v) => {
                    let vc = chars_of(v.as_str());
                    let ghost before = out@;
                    push_all(&mut out, &vc);
                    i = e + 1;
                    proof {
                        match env_from(cs@, i as int, ev) {
                            Ok(t) => {
                                assert(before + (vc@ + t) == out@ + t);
                            },
                            Err(_) => {},
                        }
                    }
                },
            }
        } else {
            let ghost before = out@;
            out.push(cs[i]);
            i = i + 1;
            proof {
                match env_from(cs@, i as int, ev) {
                    Ok(t) => {
                        assert(before + (seq![cs@[i - 1]] + t) == out@ + t);
                    },
                    Err(_) => {},
                }
            }
        }
    }
    assert(out@ + Seq::<char>::empty() == out@);
    Ok(string_of(out.as_slice()))
}

} // verus!
