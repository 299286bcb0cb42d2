//! A URL as plain values, and the positional arguments drawn from it.

use vstd::prelude::*;
use crate::chars::{chars_of, string_of};
use crate::error::ExpansionError;

verus! {

/// Whether `url::Url::parse` accepts the text.
pub uninterp spec fn parses_as_url(s: Seq<char>) -> bool;

/// The scheme that `url::Url::scheme` gives for the parsed text.
pub uninterp spec fn url_scheme_of(s: Seq<char>) -> Seq<char>;

/// The host that `url::Url::host_str` gives for the parsed text.
pub uninterp spec fn url_host_of(s: Seq<char>) -> Option<Seq<char>>;

/// What `url::Url::cannot_be_a_base` gives for the parsed text.
pub uninterp spec fn url_opaque_of(s: Seq<char>) -> bool;

/// The path that `url::Url::path` gives for the parsed text.
pub uninterp spec fn url_path_of(s: Seq<char>) -> Seq<char>;

/// The decoded pairs that `url::Url::query_pairs` gives for the parsed text.
pub uninterp spec fn url_query_of(s: Seq<char>) -> Seq<(Seq<char>, Seq<char>)>;

/// Relies on `url::Url::parse` and, on the URL it returns, on `scheme`,
/// `host_str`, `cannot_be_a_base`, `path` and `query_pairs`: each depends on
/// the input text alone. A URL that cannot be a base has no authority, so no
/// host, and its path is the text after the scheme's ':', which does not
/// start with '/'.
#[verifier::external_body]
fn url_parts(input: &str) -> (r: Option<(String, Option<String>, bool, String, Vec<(String, String)>)>)
    ensures
        r is Some <==> parses_as_url(input@),
        r matches Some(p) ==> {
            &&& p.0@ == url_scheme_of(input@)
            &&& match p.1 {
                Some(h) => url_host_of(input@) == Some(h@),
                None => url_host_of(input@) is None,
            }
            &&& p.2 == url_opaque_of(input@)
            &&& p.3@ == url_path_of(input@)
            &&& pairs_view(p.4@) == url_query_of(input@)
            &&& p.2 ==> p.1 is None && !(p.3@.len() > 0 && p.3@[0] == '/')
        },
{
    let u = url::Url::parse(input).ok()?;
    let host = u.host_str().map(|h| h.to_string());
    let query = u.query_pairs().map(|(k, v)| (k.into_owned(), v.into_owned())).collect();
    Some((u.scheme().to_string(), host, u.cannot_be_a_base(), u.path().to_string(), query))
}

/// The parts of a URL that the expansion reads.
pub struct ParsedUrl {
    /// The scheme, lower-cased, without the ':'.
    pub scheme: String,
    /// The host, where the URL has one.
    pub host: Option<String>,
    /// Whether the text after the scheme does not start with '/', so that
    /// the path is not split into segments.
    pub cannot_be_a_base: bool,
    /// The path, percent-encoded.
    pub path: String,
    /// The decoded query pairs, in order; keys may repeat.
    pub query: Vec<(String, String)>,
}

/// The views of a sequence of strings.
pub open spec fn strings_view(v: Seq<String>) -> Seq<Seq<char>> {
    v.map_values(|x: String| x@)
}

/// The views of a sequence of string pairs.
pub open spec fn pairs_view(v: Seq<(String, String)>) -> Seq<(Seq<char>, Seq<char>)> {
    v.map_values(|p: (String, String)| (p.0@, p.1@))
}

/// The pieces of `s` between occurrences of `sep`; there is always at least one.
pub open spec fn split_on(s: Seq<char>, sep: char) -> Seq<Seq<char>>
    decreases s.len(),
{
    if s.len() == 0 {
        seq![Seq::empty()]
    } else {
        let p = split_on(s.drop_last(), sep);
        if s.last() == sep {
            p.push(Seq::empty())
        } else {
            p.update(p.len() - 1, p.last().push(s.last()))
        }
    }
}

/// The path's segments: the pieces after the leading '/', or none where the
/// path does not start with one.
pub open spec fn path_segments(path: Seq<char>) -> Option<Seq<Seq<char>>> {
    if path.len() > 0 && path[0] == '/' {
        Some(split_on(path.drop_first(), '/'))
    } else {
        None
    }
}

/// Keeps the non-empty strings, in order.
pub open spec fn non_empty(v: Seq<Seq<char>>) -> Seq<Seq<char>> {
    v.filter(|x: Seq<char>| x.len() > 0)
}

impl ParsedUrl {
    /// The query pairs as character sequences.
    pub open spec fn query_view(&self) -> Seq<(Seq<char>, Seq<char>)> {
        pairs_view(self.query@)
    }

    /// The host, or the empty text where there is none.
    pub open spec fn host_text(&self) -> Seq<char> {
        match self.host {
            Some(h) => h@,
            None => Seq::empty(),
        }
    }

    /// The leading arguments: the host, then the whole path where the URL
    /// cannot be split into segments.
    pub open spec fn base_args(&self) -> Seq<Seq<char>> {
        if self.cannot_be_a_base {
            seq![self.host_text(), self.path@]
        } else {
            seq![self.host_text()]
        }
    }

    /// The positional arguments: the leading arguments and the path segments,
    /// with every empty one dropped.
    pub open spec fn positional(&self) -> Seq<Seq<char>> {
        let segs = match path_segments(self.path@) {
            Some(p) => p,
            None => Seq::empty(),
        };
        non_empty(self.base_args() + segs)
    }

    /// Parses `input` as an absolute URL and reads off its parts.
    pub fn parse(input: &str) -> (r: Result<ParsedUrl, ExpansionError>)
        ensures
            r is Ok <==> parses_as_url(input@),
            r matches Err(e) ==> e == ExpansionError::MalformedUrl,
            r matches Ok(u) ==> {
                &&& u.scheme@ == url_scheme_of(input@)
                &&& match u.host {
                    Some(h) => url_host_of(input@) == Some(h@),
                    None => url_host_of(input@) is None,
                }
                &&& u.cannot_be_a_base == url_opaque_of(input@)
                &&& u.path@ == url_path_of(input@)
                &&& u.query_view() == url_query_of(input@)
                &&& u.cannot_be_a_base ==> u.host is None && path_segments(u.path@) is None
            },
    {
        match url_parts(input) {
            Some((scheme, host, cannot_be_a_base, path, query)) => Ok(
                ParsedUrl { scheme, host, cannot_be_a_base, path, query },
            ),
            None => Err(ExpansionError::MalformedUrl),
        }
    }
}

/// The pieces of `s` between occurrences of `sep`.
pub fn split_text(s: &str, sep: char) -> (r: Vec<String>)
    ensures
        strings_view(r@) == split_on(s@, sep),
{
    let cs = chars_of(s);
    let mut out: Vec<String> = Vec::new();
    let mut cur: Vec<char> = Vec::new();
    let mut k: usize = 0;
    while k < cs.len()
        invariant
            k <= cs.len(),
            cs@ == s@,
            strings_view(out@).push(cur@) == split_on(cs@.take(k as int), sep),
        decreases cs.len() - k,
    {
        let c = cs[k];
        let ghost before = split_on(cs@.take(k as int), sep);
        assert(cs@.take(k + 1 as int).drop_last() == cs@.take(k as int));
        if c == sep {
            let piece = string_of(cur.as_slice());
            out.push(piece);
            cur = Vec::new();
            assert(strings_view(out@).push(cur@) == before.push(Seq::empty()));
        } else {
            cur.push(c);
            assert(strings_view(out@).push(cur@) == before.update(
                before.len() - 1,
                before.last().push(c),
            ));
        }
        k = k + 1;
    }
    let last = string_of(cur.as_slice());
    out.push(last);
    assert(cs@.take(cs.len() as int) == cs@);
    assert(strings_view(out@) == split_on(s@, sep));
    out
}

/// The leading arguments of `url`: its host, then its whole path where the URL
/// cannot be split into segments.
pub fn get_args(url: &ParsedUrl) -> (r: Vec<String>)
    ensures
        strings_view(r@) == url.base_args(),
{
    let host = match &url.host {
        Some(h) => h.clone(),
        None => String::new(),
    };
    let mut v: Vec<String> = Vec::new();
    v.push(host);
    if url.cannot_be_a_base {
        v.push(url.path.clone());
    }
    assert(strings_view(v@) == url.base_args());
    v
}

/// The positional arguments of `url`, in order, with every empty one dropped.
pub fn positional_args(url: &ParsedUrl) -> (r: Vec<String>)
    ensures
        strings_view(r@) == url.positional(),
{
    let mut all = get_args(url);
    let path = chars_of(url.path.as_str());
    if path.len() > 0 && path[0] == '/' {
        let rest = string_of(path.as_slice().split_at(1).1);
        let segs = split_text(rest.as_str(), '/');
        proof {
            assert(rest@ == url.path@.drop_first());
        }
        let ghost before = strings_view(all@);
        let mut k: usize = 0;
        while k < segs.len()
            invariant
                k <= segs.len(),
                strings_view(all@) == before + strings_view(segs@).take(k as int),
            decreases segs.len() - k,
        {
            let ghost prev = all@;
            all.push(segs[k].clone());
            assert(strings_view(all@) == strings_view(prev).push(segs@[k as int]@));
            k = k + 1;
            assert(strings_view(segs@).take(k as int) == strings_view(segs@).take(k - 1).push(
                segs@[k - 1]@,
            ));
        }
        assert(strings_view(segs@).take(segs.len() as int) == strings_view(segs@));
    } else {
        assert(url.base_args() + Seq::<Seq<char>>::empty() == url.base_args());
    }
    let ghost full = strings_view(all@);
    let mut out: Vec<String> = Vec::new();
    let mut k: usize = 0;
    while k < all.len()
        invariant
            k <= all.len(),
            full == strings_view(all@),
            strings_view(out@) == non_empty(full.take(k as int)),
        decreases all.len() - k,
    {
        proof {
            reveal(Seq::filter);
            assert(full.take(k + 1 as int).drop_last() == full.take(k as int));
        }
        let a = all[k].clone();
        let ac = chars_of(a.as_str());
        if ac.len() > 0 {
            out.push(a);
        }
        k = k + 1;
    }
    assert(full.take(all.len() as int) == full);
    out
}

} // verus!
