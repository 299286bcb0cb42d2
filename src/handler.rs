//! Handlers, their lookup by scheme, and the whole expansion of a URL.

use vstd::prelude::*;
use crate::env::{env_expand, expand_env};
use crate::error::ExpansionError;
use crate::expand::{expand_args, expand_args_spec, expand_named, expand_named_spec};
use crate::parsed_url::{ParsedUrl, pairs_view, positional_args, strings_view};
use crate::tokenize::{split_args, tokenize};

verus! {

/// What to run for URLs of one scheme.
pub struct Handler {
    /// The scheme that the handler serves.
    pub scheme: String,
    /// The command template, which may hold `%NAME%` tokens.
    pub command: String,
    /// The arguments template, which may hold `{key}`, `%N` and `%NAME%` tokens.
    pub args: Option<String>,
}

/// The configured handlers, in order.
pub struct Config {
    pub handler: Vec<Handler>,
}

/// A command and its arguments, ready to be started.
pub struct Invocation {
    pub command: String,
    pub args: Vec<String>,
}

/// The index of the first handler from `k` on whose scheme is `scheme`.
pub open spec fn handler_index_from(hs: Seq<Handler>, scheme: Seq<char>, k: int) -> Option<int>
    decreases hs.len() - k,
{
    if k < 0 || k >= hs.len() {
        None
    } else if hs[k].scheme@ == scheme {
        Some(k)
    } else {
        handler_index_from(hs, scheme, k + 1)
    }
}

/// The index of the first handler whose scheme is `scheme`.
pub open spec fn handler_index(hs: Seq<Handler>, scheme: Seq<char>) -> Option<int> {
    handler_index_from(hs, scheme, 0)
}

/// The arguments template, empty where the handler has none.
pub open spec fn args_template(h: Handler) -> Seq<char> {
    match h.args {
        Some(a) => a@,
        None => Seq::empty(),
    }
}

/// The arguments template after named, positional and environment
/// expansion, in that order.
pub open spec fn expanded_args(h: Handler, u: ParsedUrl, env: Seq<(Seq<char>, Seq<char>)>) -> Result<
    Seq<char>,
    Seq<char>,
> {
    env_expand(expand_args_spec(expand_named_spec(args_template(h), u.query_view()), u.positional()), env)
}

/// The command and the argument tokens for `u` under `h`, or the name of
/// the first variable found missing (in the arguments, then in the command).
pub open spec fn expansion(h: Handler, u: ParsedUrl, env: Seq<(Seq<char>, Seq<char>)>) -> Result<
    (Seq<char>, Seq<Seq<char>>),
    Seq<char>,
> {
    match expanded_args(h, u, env) {
        Err(n) => Err(n),
        Ok(a) => match env_expand(h.command@, env) {
            Err(n) => Err(n),
            Ok(c) => Ok((c, tokenize(a))),
        },
    }
}

/// Whether `r` is the outcome that `e` describes.
pub open spec fn outcome_matches(
    r: Result<Invocation, ExpansionError>,
    e: Result<(Seq<char>, Seq<Seq<char>>), Seq<char>>,
) -> bool {
    match (r, e) {
        (Ok(inv), Ok((c, a))) => inv.command@ == c && strings_view(inv.args@) == a,
        (Err(ExpansionError::EnvironmentVariableMissing(n)), Err(x)) => n@ == x,
        _ => false,
    }
}

/// The first handler whose scheme is `scheme`.
pub fn find_handler<'a>(handlers: &'a Vec<Handler>, scheme: &str) -> (r: Result<
    &'a Handler,
    ExpansionError,
>)
    ensures
        match handler_index(handlers@, scheme@) {
            Some(i) => r matches Ok(h) && *h == handlers@[i],
            None => r matches Err(e) && e == ExpansionError::HandlerNotFound,
        },
{
    let wanted = scheme.to_owned();
    let mut k: usize = 0;
    while k < handlers.len()
        invariant
            k <= handlers.len(),
            wanted@ == scheme@,
            handler_index(handlers@, scheme@) == handler_index_from(handlers@, scheme@, k as int),
        decreases handlers.len() - k,
    {
        if handlers[k].scheme == wanted {
            return Ok(&handlers[k]);
        }
        k = k + 1;
    }
    Err(ExpansionError::HandlerNotFound)
}

/// Expands `handler`'s templates for `url`: the arguments template through
/// the named, positional and environment stages and then split into tokens,
/// the command template through the environment stage alone.
pub fn expand(handler: &Handler, url: &ParsedUrl, env: &Vec<(String, String)>) -> (r: Result<
    Invocation,
    ExpansionError,
>)
    ensures
        outcome_matches(r, expansion(*handler, *url, pairs_view(env@))),
{
    let template = match &handler.args {
        Some(a) => a.clone(),
        None => String::new(),
    };
    let named = expand_named(template.as_str(), url);
    let positional = positional_args(url);
    let mut refs: Vec<&str> = Vec::new();
    let mut k: usize = 0;
    while k < positional.len()
        invariant
            k <= positional.len(),
            refs@.map_values(|x: &str| x@) == strings_view(positional@).take(k as int),
        decreases positional.len() - k,
    {
        let ghost prev = refs@;
        refs.push(positional[k].as_str());
        assert(refs@.map_values(|x: &str| x@) == prev.map_values(|x: &str| x@).push(
            positional@[k as int]@,
        ));
        k = k + 1;
        assert(strings_view(positional@).take(k as int) == strings_view(positional@).take(
            k - 1,
        ).push(positional@[k - 1]@));
    }
    assert(strings_view(positional@).take(positional.len() as int) == strings_view(positional@));
    let numbered = expand_args(named.as_str(), refs.as_slice());
    let args = match expand_env(numbered.as_str(), env) {
        Ok(a) => a,
        Err(e) => {
            return Err(e);
        },
    };
    let command = match expand_env(handler.command.as_str(), env) {
        Ok(c) => c,
        Err(e) => {
            return Err(e);
        },
    };
    Ok(Invocation { command, args: split_args(args.as_str()) })
}

/// Finds the handler for `url`'s scheme and expands it.
pub fn resolve(handlers: &Vec<Handler>, url: &ParsedUrl, env: &Vec<(String, String)>) -> (r: Result<
    Invocation,
    ExpansionError,
>)
    ensures
        match handler_index(handlers@, url.scheme@) {
            Some(i) => outcome_matches(r, expansion(handlers@[i], *url, pairs_view(env@))),
            None => r matches Err(e) && e == ExpansionError::HandlerNotFound,
        },
{
    match find_handler(handlers, url.scheme.as_str()) {
        Ok(h) => expand(h, url, env),
        Err(e) => Err(e),
    }
}

} // verus!
