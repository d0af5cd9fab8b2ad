//! The requests sent to `kiwix-serve`: their URLs and query parameters.
use vstd::prelude::*;

use crate::text::{decimal, from_chars, push_all, push_decimal, to_chars, trim_end_char, trim_trailing_slashes};

verus! {

/// Largest page of search results `kiwix-serve` is asked for.
pub const MAX_SEARCH_LIMIT: usize = 140;

/// `s` without its leading `c`s (`str::trim_start_matches` with a char).
pub open spec fn trim_start_char(s: Seq<char>, c: char) -> Seq<char>
    decreases s.len(),
{
    if s.len() > 0 && s[0] == c {
        trim_start_char(s.drop_first(), c)
    } else {
        s
    }
}

fn trim_leading_slashes(s: &[char]) -> (r: Vec<char>)
    ensures
        r@ == trim_start_char(s@, '/'),
{
    let mut i: usize = 0;
    assert(s@.skip(0) =~= s@);
    while i < s.len() && s[i] == '/'
        invariant
            i <= s@.len(),
            trim_start_char(s@, '/') == trim_start_char(s@.skip(i as int), '/'),
        decreases s.len() - i,
    {
        proof {
            assert(s@.skip(i as int).drop_first() =~= s@.skip(i + 1));
        }
        i += 1;
    }
    let r = crate::text::slice_chars(s, i, s.len());
    assert(r@ =~= s@.skip(i as int));
    r
}

/// The base URL a client keeps: the given one without trailing slashes.
pub fn client_base(base_url: &str) -> (r: String)
    ensures
        r@ == trim_end_char(base_url@, '/'),
{
    let c = to_chars(base_url);
    let t = trim_trailing_slashes(c.as_slice());
    from_chars(t.as_slice())
}

fn join(base: &str, suffix: &str) -> (r: String)
    ensures
        r@ == base@ + suffix@,
{
    let mut v = to_chars(base);
    let s = to_chars(suffix);
    push_all(&mut v, s.as_slice());
    from_chars(v.as_slice())
}

/// URL of the OPDS catalog root, used as a reachability check.
pub fn root_url(base: &str) -> (r: String)
    ensures
        r@ == base@ + "/catalog/v2/root.xml"@,
{
    join(base, "/catalog/v2/root.xml")
}

/// URL of the full-text search endpoint.
pub fn search_url(base: &str) -> (r: String)
    ensures
        r@ == base@ + "/search"@,
{
    join(base, "/search")
}

/// URL of the OPDS catalog entries.
pub fn catalog_url(base: &str) -> (r: String)
    ensures
        r@ == base@ + "/catalog/v2/entries"@,
{
    join(base, "/catalog/v2/entries")
}

/// URL of an article's raw HTML: `{base}/raw/{zim}/content/{path}`, with the
/// path's leading slashes removed.
pub fn article_url(base: &str, zim_name: &str, path: &str) -> (r: String)
    ensures
        r@ == base@ + "/raw/"@ + zim_name@ + "/content/"@ + trim_start_char(path@, '/'),
{
    let mut v = to_chars(base);
    let a = to_chars("/raw/");
    let z = to_chars(zim_name);
    let c = to_chars("/content/");
    let p = to_chars(path);
    let p = trim_leading_slashes(p.as_slice());
    push_all(&mut v, a.as_slice());
    push_all(&mut v, z.as_slice());
    push_all(&mut v, c.as_slice());
    push_all(&mut v, p.as_slice());
    from_chars(v.as_slice())
}

/// The page length requested for a search: `limit` clamped to `1..=140`.
pub fn search_page_length(limit: usize) -> (r: usize)
    ensures
        r == (if limit < 1 { 1 } else if limit > MAX_SEARCH_LIMIT { MAX_SEARCH_LIMIT } else { limit }),
        1 <= r <= MAX_SEARCH_LIMIT,
{
    if limit < 1 {
        1
    } else if limit > MAX_SEARCH_LIMIT {
        MAX_SEARCH_LIMIT
    } else {
        limit
    }
}

/// Query parameters of a search: the pattern, the language filter, the page
/// length (clamped), and the XML format.
pub fn search_query(pattern: &str, lang: &str, limit: usize) -> (r: Vec<(String, String)>)
    ensures
        r@.len() == 4,
        r@[0].0@ == "pattern"@ && r@[0].1@ == pattern@,
        r@[1].0@ == "books.filter.lang"@ && r@[1].1@ == lang@,
        r@[2].0@ == "pageLength"@ && r@[2].1@ == decimal(search_page_length_spec(limit) as nat),
        r@[3].0@ == "format"@ && r@[3].1@ == "xml"@,
{
    let n = search_page_length(limit);
    let mut digits: Vec<char> = Vec::new();
    push_decimal(&mut digits, n as u64);
    assert(digits@ =~= decimal(n as nat));
    let mut r: Vec<(String, String)> = Vec::new();
    r.push((crate::text::owned("pattern"), crate::text::owned(pattern)));
    r.push((crate::text::owned("books.filter.lang"), crate::text::owned(lang)));
    r.push((crate::text::owned("pageLength"), from_chars(digits.as_slice())));
    r.push((crate::text::owned("format"), crate::text::owned("xml")));
    r
}

pub open spec fn search_page_length_spec(limit: usize) -> usize {
    if limit < 1 { 1 } else if limit > MAX_SEARCH_LIMIT { MAX_SEARCH_LIMIT } else { limit }
}

} // verus!
