//! Turning an article's HTML into plain text, paged or grepped.
use vstd::prelude::*;

use crate::kiwix::{ArticlePage, GrepArticleResult, KiwixError};
use crate::kiwix::grep::{grep_lines, grep_matches, grep_windows, block_view};
use crate::text::{collapse_whitespace, collapse_ws, from_chars, lines_of, to_chars};

verus! {

/// Column width the article text is wrapped to.
pub const TEXT_WIDTH: usize = 100;

/// What `html2text` renders from `html` at `width` columns (plain decorator):
/// the text, or the message of the error it reports.
pub uninterp spec fn html_render(html: Seq<char>, width: nat) -> Result<Seq<char>, Seq<char>>;

/// Wraps `html2text::config::plain().string_from_read`: the rendered text, or
/// the error's message; both are `html_render` of the arguments.
#[verifier::external_body]
fn render_html(html: &str, width: usize) -> (r: Result<String, String>)
    ensures
        match r {
            Ok(t) => html_render(html@, width as nat) == Ok::<Seq<char>, Seq<char>>(t@),
            Err(e) => html_render(html@, width as nat) == Err::<Seq<char>, Seq<char>>(e@),
        },
{
    html2text::config::plain().string_from_read(html.as_bytes(), width).map_err(|e| e.to_string())
}

/// Plain text of an article's HTML with every whitespace run collapsed to one space.
pub open spec fn article_text(rendered: Seq<char>) -> Seq<char> {
    collapse_ws(rendered)
}

/// The page of `text` that starts at `offset` (clamped to the end) and holds at
/// most `max_chars` characters: its text, the total length, the clamped start,
/// and where the next page starts, if any text remains.
pub open spec fn page_of(text: Seq<char>, offset: nat, max_chars: nat) -> (
    Seq<char>,
    nat,
    nat,
    Option<nat>,
) {
    let total = text.len();
    let start = if offset <= total { offset } else { total };
    let end = if start + max_chars <= total { start + max_chars } else { total };
    (text.subrange(start as int, end as int), total, start, if end < total { Some(end as nat) } else { None })
}

/// The view of an `ArticlePage`.
pub open spec fn page_view(p: ArticlePage) -> (Seq<char>, nat, nat, Option<nat>) {
    (
        p.text@,
        p.total_chars as nat,
        p.offset as nat,
        match p.next_offset {
            Some(e) => Some(e as nat),
            None => None,
        },
    )
}

/// A page of plain text from `text`, as `page_of` describes it.
pub fn paginate(text: &[char], offset: usize, max_chars: usize) -> (p: ArticlePage)
    ensures
        page_view(p) == page_of(text@, offset as nat, max_chars as nat),
{
    let total = text.len();
    let start = if offset <= total { offset } else { total };
    let end = if max_chars <= total - start { start + max_chars } else { total };
    let mut page: Vec<char> = Vec::new();
    let mut k = start;
    while k < end
        invariant
            start <= k <= end <= text@.len(),
            page@ == text@.subrange(start as int, k as int),
        decreases end - k,
    {
        page.push(text[k]);
        k += 1;
    }
    let next_offset = if end < total { Some(end) } else { None };
    ArticlePage { text: from_chars(page.as_slice()), total_chars: total, offset: start, next_offset }
}

/// The page of the article `html` that starts at `offset` and spans at most
/// `max_chars` characters of its whitespace-collapsed plain text.
pub fn article_page(html: &str, offset: usize, max_chars: usize) -> (r: Result<
    ArticlePage,
    KiwixError,
>)
    ensures
        match html_render(html@, TEXT_WIDTH as nat) {
            Ok(t) => r matches Ok(p) && page_view(p) == page_of(
                article_text(t),
                offset as nat,
                max_chars as nat,
            ),
            Err(m) => r matches Err(KiwixError::Render(e)) && e@ == m,
        },
{
    match render_html(html, TEXT_WIDTH) {
        Ok(rendered) => {
            let chars = to_chars(rendered.as_str());
            let text = collapse_whitespace(chars.as_slice());
            Ok(paginate(text.as_slice(), offset, max_chars))
        },
        Err(e) => Err(KiwixError::Render(e)),
    }
}

/// Lines of the article `html` (its plain text, line breaks kept) that contain
/// `query`, with `context` lines around each.
pub fn grep_article_html(html: &str, query: &str, context: usize) -> (r: Result<
    GrepArticleResult,
    KiwixError,
>)
    ensures
        match html_render(html@, TEXT_WIDTH as nat) {
            Ok(t) => r matches Ok(g) && {
                &&& g.total_lines == lines_of(t).len()
                &&& g.match_count == grep_matches(t, query@).len()
                &&& g.blocks@.len() == grep_windows(t, query@, context as int).len()
                &&& forall|j: int|
                    0 <= j < g.blocks@.len() ==> #[trigger] block_view(g.blocks@[j]) == ({
                        let w = grep_windows(t, query@, context as int)[j];
                        (w.0 + 1, lines_of(t).subrange(w.0, w.1 + 1))
                    })
            },
            Err(m) => r matches Err(KiwixError::Render(e)) && e@ == m,
        },
{
    match render_html(html, TEXT_WIDTH) {
        Ok(rendered) => Ok(grep_lines(rendered.as_str(), query, context)),
        Err(e) => Err(KiwixError::Render(e)),
    }
}

/// The next page begins exactly where the previous one ended, so following
/// `next_offset` from offset 0 walks the whole text without gaps or overlap;
/// a page with no successor reaches the end of the text.
pub proof fn law_pages_are_contiguous(text: Seq<char>, offset: nat, max_chars: nat)
    ensures
        ({
            let p = page_of(text, offset, max_chars);
            &&& p.0 == text.subrange(p.2 as int, (p.2 + p.0.len()) as int)
            &&& match p.3 {
                Some(e) => e == p.2 + p.0.len() && e < text.len() && page_of(text, e, max_chars).2
                    == e,
                None => p.2 + p.0.len() == text.len(),
            }
        }),
{
}


/// The texts of the pages met by starting at `offset` and following each
/// page's `next_offset` while there is one.
pub open spec fn pages_from(text: Seq<char>, offset: nat, max_chars: nat) -> Seq<Seq<char>>
    decreases text.len() - offset,
{
    let p = page_of(text, offset, max_chars);
    match p.3 {
        Some(e) => if offset < e < text.len() {
            seq![p.0] + pages_from(text, e, max_chars)
        } else {
            seq![p.0]
        },
        None => seq![p.0],
    }
}

/// Texts joined end to end.
pub open spec fn joined(texts: Seq<Seq<char>>) -> Seq<char>
    decreases texts.len(),
{
    if texts.len() == 0 {
        seq![]
    } else {
        texts[0] + joined(texts.drop_first())
    }
}

proof fn lemma_pages_from(text: Seq<char>, offset: nat, max_chars: nat)
    requires
        max_chars >= 1,
        offset <= text.len(),
    ensures
        joined(pages_from(text, offset, max_chars)) == text.skip(offset as int),
        pages_from(text, offset, max_chars).len() == (if offset == text.len() {
            1
        } else {
            ((text.len() - offset) + max_chars - 1) / (max_chars as int)
        }),
    decreases text.len() - offset,
{
    let n = text.len() as int;
    let m = max_chars as int;
    let a = n - offset;
    let p = page_of(text, offset, max_chars);
    let ps = pages_from(text, offset, max_chars);
    if offset + max_chars < text.len() {
        let e = offset + max_chars;
        lemma_pages_from(text, e, max_chars);
        let rest = pages_from(text, e, max_chars);
        assert(ps == seq![p.0] + rest);
        assert((seq![p.0] + rest).drop_first() =~= rest);
        assert((seq![p.0] + rest)[0] == p.0);
        assert(joined(ps) == p.0 + joined(rest));
        assert(p.0 + text.skip(e as int) =~= text.skip(offset as int));
        assert((a - m + m - 1) / m + 1 == (a + m - 1) / m) by (nonlinear_arith)
            requires
                m >= 1,
                a > m,
        {
            assert(a + m - 1 == (a - 1) + m);
            assert((a - 1 + m) / m == (a - 1) / m + 1);
        }
    } else {
        assert(ps == seq![p.0]);
        assert(seq![p.0].drop_first() =~= Seq::<Seq<char>>::empty());
        assert(joined(Seq::<Seq<char>>::empty()) == Seq::<char>::empty());
        assert(joined(ps) == p.0 + joined(Seq::<Seq<char>>::empty()));
        assert(p.0 + Seq::<char>::empty() =~= text.skip(offset as int));
        if a > 0 {
            assert((a + m - 1) / m == 1) by (nonlinear_arith)
                requires
                    m >= 1,
                    0 < a <= m,
            ;
        }
    }
}

/// Reading an article page by page from offset 0, following `next_offset`
/// until it is `None`, takes ⌈n / max_chars⌉ pages (one for an empty text)
/// for a text of n characters, and their texts joined give the whole text.
pub proof fn law_page_chain(text: Seq<char>, max_chars: nat)
    requires
        max_chars >= 1,
    ensures
        joined(pages_from(text, 0, max_chars)) == text,
        pages_from(text, 0, max_chars).len() == (if text.len() == 0 {
            1
        } else {
            (text.len() + max_chars - 1) / (max_chars as int)
        }),
{
    lemma_pages_from(text, 0, max_chars);
    assert(text.skip(0) =~= text);
}

} // verus!
