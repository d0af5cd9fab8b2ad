//! Parsing of the XML documents that `kiwix-serve` returns: search results
//! (RSS/OpenSearch) and the book catalog (OPDS/Atom).
use quick_xml::events::Event;
use quick_xml::Reader;
use vstd::prelude::*;

use crate::kiwix::{Book, KiwixError, SearchResult};
use crate::text::{
    occurs_at, first_from, parse_u64, parse_u64_spec, trim, trim_chars,
    collapse_whitespace, collapse_ws, eq_str, find, find_from, from_chars, from_utf8_lossy,
    lemma_find_from, matches_at, push_all, slice_chars, to_chars, utf8_lossy,
};

verus! {

/// `s` with the markup removed: every `<` starts a tag that runs up to the next
/// `>`, and neither the tag nor its brackets are kept. The flag tells whether
/// the text ends inside a tag.
pub open spec fn drop_tags(s: Seq<char>) -> (Seq<char>, bool)
    decreases s.len(),
{
    if s.len() == 0 {
        (seq![], false)
    } else {
        let (out, in_tag) = drop_tags(s.drop_last());
        let c = s.last();
        if c == '<' {
            (out, true)
        } else if c == '>' {
            (out, false)
        } else if !in_tag {
            (out.push(c), in_tag)
        } else {
            (out, in_tag)
        }
    }
}

/// The entity that begins at position `i` of `s`, if one of the few that
/// snippets and descriptions use does: its text and the character it stands
/// for.
pub open spec fn entity_at(s: Seq<char>, i: int) -> Option<(Seq<char>, char)> {
    if occurs_at(s, "&amp;"@, i) {
        Some(("&amp;"@, '&'))
    } else if occurs_at(s, "&lt;"@, i) {
        Some(("&lt;"@, '<'))
    } else if occurs_at(s, "&gt;"@, i) {
        Some(("&gt;"@, '>'))
    } else if occurs_at(s, "&quot;"@, i) {
        Some(("&quot;"@, '"'))
    } else if occurs_at(s, "&#39;"@, i) {
        Some(("&#39;"@, '\''))
    } else if occurs_at(s, "&nbsp;"@, i) {
        Some(("&nbsp;"@, ' '))
    } else {
        None
    }
}

/// `s` from position `i` on, with each entity replaced by its character in
/// one pass from left to right: a character produced by decoding is not
/// decoded again.
pub open spec fn decode_from(s: Seq<char>, i: int) -> Seq<char>
    decreases s.len() - i,
{
    if i < 0 || i >= s.len() {
        seq![]
    } else {
        match entity_at(s, i) {
            Some((e, c)) => {
                proof {
                    reveal_strlit("&amp;");
                    reveal_strlit("&lt;");
                    reveal_strlit("&gt;");
                    reveal_strlit("&quot;");
                    reveal_strlit("&#39;");
                    reveal_strlit("&nbsp;");
                }
                seq![c] + decode_from(s, i + e.len())
            },
            None => seq![s[i]] + decode_from(s, i + 1),
        }
    }
}

/// `s` with its entities decoded once each.
pub open spec fn decode_entities(s: Seq<char>) -> Seq<char> {
    decode_from(s, 0)
}

/// A small HTML-to-text reduction: tags dropped, common entities decoded,
/// whitespace collapsed.
pub open spec fn strip_html_spec(html: Seq<char>) -> Seq<char> {
    collapse_ws(decode_entities(drop_tags(html).0))
}

fn entity_here(s: &[char], i: usize) -> (r: Option<(usize, char)>)
    requires
        i < s@.len(),
    ensures
        match entity_at(s@, i as int) {
            Some((e, c)) => r == Some((e.len() as usize, c)) && 1 <= e.len() && i + e.len() <= s@.len(),
            None => r is None,
        },
{
    proof {
        reveal_strlit("&amp;");
        reveal_strlit("&lt;");
        reveal_strlit("&gt;");
        reveal_strlit("&quot;");
        reveal_strlit("&#39;");
        reveal_strlit("&nbsp;");
    }
    let amp = to_chars("&amp;");
    if matches_at(s, amp.as_slice(), i) {
        return Some((amp.len(), '&'));
    }
    let lt = to_chars("&lt;");
    if matches_at(s, lt.as_slice(), i) {
        return Some((lt.len(), '<'));
    }
    let gt = to_chars("&gt;");
    if matches_at(s, gt.as_slice(), i) {
        return Some((gt.len(), '>'));
    }
    let quot = to_chars("&quot;");
    if matches_at(s, quot.as_slice(), i) {
        return Some((quot.len(), '"'));
    }
    let apos = to_chars("&#39;");
    if matches_at(s, apos.as_slice(), i) {
        return Some((apos.len(), '\''));
    }
    let nbsp = to_chars("&nbsp;");
    if matches_at(s, nbsp.as_slice(), i) {
        return Some((nbsp.len(), ' '));
    }
    None
}

/// Very small HTML→text reduction for snippets/descriptions: drop tags, decode
/// `&amp; &lt; &gt; &quot; &#39; &nbsp;` once each, collapse whitespace.
pub fn strip_html(html: &str) -> (r: String)
    ensures
        r@ == strip_html_spec(html@),
{
    let chars = to_chars(html);
    let mut out: Vec<char> = Vec::new();
    let mut in_tag = false;
    let mut i: usize = 0;
    while i < chars.len()
        invariant
            chars@ == html@,
            i <= chars@.len(),
            (out@, in_tag) == drop_tags(chars@.take(i as int)),
        decreases chars.len() - i,
    {
        let c = chars[i];
        proof {
            assert(chars@.take(i + 1).drop_last() =~= chars@.take(i as int));
        }
        if c == '<' {
            in_tag = true;
        } else if c == '>' {
            in_tag = false;
        } else if !in_tag {
            out.push(c);
        }
        i += 1;
    }
    assert(chars@.take(i as int) =~= chars@);
    let mut dec: Vec<char> = Vec::new();
    let mut j: usize = 0;
    while j < out.len()
        invariant
            j <= out@.len(),
            out@ == drop_tags(html@).0,
            decode_entities(out@) == dec@ + decode_from(out@, j as int),
        decreases out.len() - j,
    {
        match entity_here(out.as_slice(), j) {
            Some((n, c)) => {
                dec.push(c);
                j = j + n;
            },
            None => {
                dec.push(out[j]);
                j += 1;
            },
        }
    }
    assert(dec@ =~= decode_entities(out@));
    let out = collapse_whitespace(dec.as_slice());
    from_chars(out.as_slice())
}

/// Splits a `.../content/<zim>/<path>` URL into `(zim, path)`: the text after
/// the first `/content/` up to the next `/`, and the text after that `/`. With
/// no `/` after the marker the path is empty; with no marker both are empty.
pub open spec fn split_url(link: Seq<char>) -> (Seq<char>, Seq<char>) {
    match find_from(link, "/content/"@, 0) {
        Some(idx) => {
            let rest = link.skip(idx + "/content/"@.len());
            match crate::text::first_from(rest, '/', 0) {
                Some(k) => (rest.take(k), rest.skip(k + 1)),
                None => (rest, seq![]),
            }
        },
        None => (seq![], seq![]),
    }
}

/// Split a `.../content/<zim>/<path>` URL into (zim_name, path).
pub fn split_content_url(link: &str) -> (r: (String, String))
    ensures
        (r.0@, r.1@) == split_url(link@),
{
    let chars = to_chars(link);
    let marker = to_chars("/content/");
    proof {
        lemma_find_from(chars@, marker@, 0);
    }
    match find(chars.as_slice(), marker.as_slice()) {
        Some(idx) => {
            let n = chars.len();
            assert(occurs_at(chars@, marker@, idx as int));
            let start = idx + marker.len();
            let rest = slice_chars(chars.as_slice(), start, chars.len());
            assert(rest@ =~= chars@.skip(start as int));
            match crate::text::find_char_from(rest.as_slice(), '/', 0) {
                Some(k) => {
                    let zim = slice_chars(rest.as_slice(), 0, k);
                    let path = slice_chars(rest.as_slice(), k + 1, rest.len());
                    assert(zim@ =~= rest@.take(k as int));
                    assert(path@ =~= rest@.skip(k + 1));
                    (from_chars(zim.as_slice()), from_chars(path.as_slice()))
                },
                None => {
                    let empty: Vec<char> = Vec::new();
                    (from_chars(rest.as_slice()), from_chars(empty.as_slice()))
                },
            }
        },
        None => {
            let empty: Vec<char> = Vec::new();
            (from_chars(empty.as_slice()), from_chars(empty.as_slice()))
        },
    }
}

/// Index of the first byte `b` in `s` at or after `from`.
pub open spec fn first_byte(s: Seq<u8>, b: u8, from: int) -> Option<int>
    decreases s.len() - from,
{
    if from < 0 || from >= s.len() {
        None
    } else if s[from] == b {
        Some(from)
    } else {
        first_byte(s, b, from + 1)
    }
}

/// A qualified name without its namespace prefix: what follows the first `:`.
pub open spec fn local_bytes(q: Seq<u8>) -> Seq<u8> {
    match first_byte(q, 58u8, 0) {
        Some(i) => q.skip(i + 1),
        None => q,
    }
}

proof fn lemma_first_byte(s: Seq<u8>, b: u8, from: int)
    ensures
        first_byte(s, b, from) matches Some(i) ==> 0 <= from <= i < s.len(),
    decreases s.len() - from,
{
    if 0 <= from < s.len() && s[from] != b {
        lemma_first_byte(s, b, from + 1);
    }
}

fn local_slice(q: &[u8]) -> (r: Vec<u8>)
    ensures
        r@ == local_bytes(q@),
{
    proof {
        lemma_first_byte(q@, 58u8, 0);
    }
    let mut i: usize = 0;
    while i < q.len()
        invariant
            i <= q@.len(),
            first_byte(q@, 58u8, 0) == first_byte(q@, 58u8, i as int),
        decreases q.len() - i,
    {
        if q[i] == 58u8 {
            let mut r: Vec<u8> = Vec::new();
            let mut k = i + 1;
            while k < q.len()
                invariant
                    i + 1 <= k <= q@.len(),
                    r@ == q@.subrange(i + 1, k as int),
                decreases q.len() - k,
            {
                r.push(q[k]);
                k += 1;
            }
            assert(r@ =~= q@.skip(i + 1));
            return r;
        }
        i += 1;
    }
    let mut r: Vec<u8> = Vec::new();
    let mut k: usize = 0;
    while k < q.len()
        invariant
            k <= q@.len(),
            r@ == q@.take(k as int),
        decreases q.len() - k,
    {
        r.push(q[k]);
        k += 1;
        assert(r@ =~= q@.take(k as int));
    }
    assert(r@ =~= q@);
    r
}

/// Local (namespace-stripped) element name as an owned String.
pub fn local_name(qname: &[u8]) -> (r: String)
    ensures
        r@ == utf8_lossy(local_bytes(qname@)),
{
    let l = local_slice(qname);
    from_utf8_lossy(l.as_slice())
}

/// The attributes that `quick_xml` reads from the raw attribute bytes of a tag
/// (decoded lossily as UTF-8), as (key, value) byte pairs in document order,
/// malformed ones left out.
pub uninterp spec fn xml_attributes(raw: Seq<u8>) -> Seq<(Seq<u8>, Seq<u8>)>;

/// The byte views of attribute pairs.
pub open spec fn pair_views(v: Seq<(Vec<u8>, Vec<u8>)>) -> Seq<(Seq<u8>, Seq<u8>)> {
    v.map_values(|p: (Vec<u8>, Vec<u8>)| (p.0@, p.1@))
}

/// Wraps `quick_xml::events::attributes::Attributes::new` on the raw attribute
/// bytes of a tag, keeping the attributes it reads without error: the result
/// is `xml_attributes` of `raw`.
#[verifier::external_body]
fn tag_attributes(raw: &[u8]) -> (r: Vec<(Vec<u8>, Vec<u8>)>)
    ensures
        pair_views(r@) == xml_attributes(raw@),
{
    quick_xml::events::attributes::Attributes::new(&String::from_utf8_lossy(raw), 0)
        .flatten()
        .map(|a| (a.key.as_ref().to_vec(), a.value.to_vec()))
        .collect()
}

/// The value of the first attribute whose local key is `key`, decoded lossily.
pub open spec fn attr_value(attrs: Seq<(Seq<u8>, Seq<u8>)>, key: Seq<u8>) -> Option<Seq<char>>
    decreases attrs.len(),
{
    if attrs.len() == 0 {
        None
    } else if local_bytes(attrs[0].0) == key {
        Some(utf8_lossy(attrs[0].1))
    } else {
        attr_value(attrs.drop_first(), key)
    }
}

fn eq_bytes(a: &[u8], b: &[u8]) -> (r: bool)
    ensures
        r == (a@ == b@),
{
    if a.len() != b.len() {
        return false;
    }
    let mut i: usize = 0;
    while i < a.len()
        invariant
            a@.len() == b@.len(),
            i <= a@.len(),
            forall|k: int| 0 <= k < i ==> a@[k] == b@[k],
        decreases a.len() - i,
    {
        if a[i] != b[i] {
            return false;
        }
        i += 1;
    }
    assert(a@ =~= b@);
    true
}

/// The bytes of `name`.
pub open spec fn name_key() -> Seq<u8> {
    seq![110u8, 97u8, 109u8, 101u8]
}

/// Read an attribute value by (local) key from the raw attribute bytes of a tag.
pub fn attr(raw: &[u8], key: &[u8]) -> (r: Option<String>)
    ensures
        match attr_value(xml_attributes(raw@), key@) {
            Some(v) => r matches Some(s) && s@ == v,
            None => r is None,
        },
{
    let attrs = tag_attributes(raw);
    let ghost all = pair_views(attrs@);
    let mut i: usize = 0;
    assert(all.skip(0) =~= all);
    while i < attrs.len()
        invariant
            all == pair_views(attrs@),
            all == xml_attributes(raw@),
            i <= attrs@.len(),
            attr_value(all, key@) == attr_value(all.skip(i as int), key@),
        decreases attrs.len() - i,
    {
        let k = local_slice(attrs[i].0.as_slice());
        proof {
            assert(all.skip(i as int)[0] == (attrs@[i as int].0@, attrs@[i as int].1@));
            assert(all.skip(i as int).drop_first() =~= all.skip(i + 1));
        }
        if eq_bytes(k.as_slice(), key) {
            assert(all.skip(i as int).len() > 0);
            assert(attr_value(all.skip(i as int), key@) == Some(utf8_lossy(attrs@[i as int].1@)));
            return Some(from_utf8_lossy(attrs[i].1.as_slice()));
        }
        i += 1;
    }
    None
}


/// One event of an XML document as `quick_xml` reads it (text trimmed): start
/// and empty tags carry their qualified name and raw attribute bytes, end tags
/// their name, text its unescaped content (empty where unescaping fails).
#[derive(Debug, Clone, PartialEq)]
pub enum XmlToken {
    Start(Vec<u8>, Vec<u8>),
    Empty(Vec<u8>, Vec<u8>),
    End(Vec<u8>),
    Text(String),
    Other,
}

/// The mathematical view of an `XmlToken`.
pub enum XmlTokenV {
    Start(Seq<u8>, Seq<u8>),
    Empty(Seq<u8>, Seq<u8>),
    End(Seq<u8>),
    Text(Seq<char>),
    Other,
}

pub open spec fn token_view(t: XmlToken) -> XmlTokenV {
    match t {
        XmlToken::Start(n, a) => XmlTokenV::Start(n@, a@),
        XmlToken::Empty(n, a) => XmlTokenV::Empty(n@, a@),
        XmlToken::End(n) => XmlTokenV::End(n@),
        XmlToken::Text(s) => XmlTokenV::Text(s@),
        XmlToken::Other => XmlTokenV::Other,
    }
}

pub open spec fn token_views(v: Seq<XmlToken>) -> Seq<XmlTokenV> {
    v.map_values(|t: XmlToken| token_view(t))
}

/// The events `quick_xml` reads from `xml` (with `trim_text(true)`) up to the
/// end of the document, or the message of the first error it meets.
pub uninterp spec fn xml_tokens(xml: Seq<char>) -> Result<Seq<XmlTokenV>, Seq<char>>;

/// Wraps `quick_xml::Reader::from_str(..).read_event()` run to the end of the
/// document: the events read, or the first error's message; the result is
/// `xml_tokens` of `xml` either way.
#[verifier::external_body]
fn scan_xml(xml: &str) -> (r: Result<Vec<XmlToken>, String>)
    ensures
        match r {
            Ok(v) => xml_tokens(xml@) == Ok::<Seq<XmlTokenV>, Seq<char>>(token_views(v@)),
            Err(e) => xml_tokens(xml@) == Err::<Seq<XmlTokenV>, Seq<char>>(e@),
        },
{
    let mut reader = Reader::from_str(xml);
    reader.config_mut().trim_text(true);
    let mut out = Vec::new();
    loop {
        out.push(match reader.read_event().map_err(|e| e.to_string())? {
            Event::Start(e) => XmlToken::Start(e.name().0.to_vec(), e.attributes_raw().to_vec()),
            Event::Empty(e) => XmlToken::Empty(e.name().0.to_vec(), e.attributes_raw().to_vec()),
            Event::End(e) => XmlToken::End(e.name().0.to_vec()),
            Event::Text(t) => XmlToken::Text(t.unescape().unwrap_or_default().into_owned()),
            Event::Eof => return Ok(out),
            _ => XmlToken::Other,
        });
    }
}

/// The local name of an element's qualified name.
pub open spec fn name_of(q: Seq<u8>) -> Seq<char> {
    utf8_lossy(local_bytes(q))
}

/// Which `<item>` child element text is currently being captured.
#[derive(Clone, Copy, Debug, PartialEq, Eq)]
pub enum Field {
    Title,
    Link,
    Description,
}

pub open spec fn field_for(name: Seq<char>) -> Option<Field> {
    if name == "title"@ {
        Some(Field::Title)
    } else if name == "link"@ {
        Some(Field::Link)
    } else if name == "description"@ {
        Some(Field::Description)
    } else {
        None
    }
}

impl Field {
    pub fn from_name(name: &str) -> (r: Option<Field>)
        ensures
            r == field_for(name@),
    {
        let n = to_chars(name);
        if eq_str(n.as_slice(), "title") {
            Some(Field::Title)
        } else if eq_str(n.as_slice(), "link") {
            Some(Field::Link)
        } else if eq_str(n.as_slice(), "description") {
            Some(Field::Description)
        } else {
            None
        }
    }
}

/// Text collected for the `<item>` being read.
pub struct ItemBuilder {
    pub title: Vec<char>,
    pub link: Vec<char>,
    pub description: Vec<char>,
    pub zim_name: Vec<char>,
}

/// (title, link, description, zim_name) of a builder.
pub type ItemV = (Seq<char>, Seq<char>, Seq<char>, Seq<char>);

/// (title, zim_name, path, snippet) of a search result.
pub type HitV = (Seq<char>, Seq<char>, Seq<char>, Seq<char>);

pub open spec fn item_view(b: &ItemBuilder) -> ItemV {
    (b.title@, b.link@, b.description@, b.zim_name@)
}

pub open spec fn hit_view(r: SearchResult) -> HitV {
    (r.title@, r.zim_name@, r.path@, r.snippet@)
}

pub open spec fn hit_views(v: Seq<SearchResult>) -> Seq<HitV> {
    v.map_values(|r: SearchResult| hit_view(r))
}

pub open spec fn empty_item() -> ItemV {
    (seq![], seq![], seq![], seq![])
}

/// The search hit an item describes: zim name and path come from the link when
/// no `<book>` named the zim; the snippet is the description without markup.
pub open spec fn item_hit(b: ItemV) -> HitV {
    let (zim_from_link, path) = split_url(b.1);
    (b.0, if b.3.len() == 0 { zim_from_link } else { b.3 }, path, strip_html_spec(b.2))
}

impl ItemBuilder {
    pub fn new() -> (b: ItemBuilder)
        ensures
            item_view(&b) == empty_item(),
    {
        ItemBuilder { title: Vec::new(), link: Vec::new(), description: Vec::new(), zim_name: Vec::new() }
    }

    pub fn build(self) -> (r: SearchResult)
        ensures
            hit_view(r) == item_hit(item_view(&self)),
    {
        let link = from_chars(self.link.as_slice());
        let (zim_from_link, path) = split_content_url(link.as_str());
        let zim_name = if self.zim_name.len() == 0 {
            zim_from_link
        } else {
            from_chars(self.zim_name.as_slice())
        };
        let description = from_chars(self.description.as_slice());
        SearchResult {
            title: from_chars(self.title.as_slice()),
            zim_name,
            path,
            snippet: strip_html(description.as_str()),
        }
    }
}

/// State of the search-result reader: the hits so far, whether an `<item>` is
/// open, the field being captured and the nesting depth below it, and the
/// item being collected.
pub struct SearchReader {
    pub results: Vec<SearchResult>,
    pub in_item: bool,
    pub field: Option<Field>,
    pub depth: usize,
    pub cur: ItemBuilder,
}

pub type SearchReaderV = (Seq<HitV>, bool, Option<Field>, nat, ItemV);

pub open spec fn search_reader_view(r: &SearchReader) -> SearchReaderV {
    (hit_views(r.results@), r.in_item, r.field, r.depth as nat, item_view(&r.cur))
}

pub open spec fn search_start() -> SearchReaderV {
    (seq![], false, None, 0, empty_item())
}

/// `cur` with its zim name taken from the `name` attribute in `raw`, if any.
pub open spec fn with_book_name(cur: ItemV, raw: Seq<u8>) -> ItemV {
    match attr_value(xml_attributes(raw), name_key()) {
        Some(v) => (cur.0, cur.1, cur.2, v),
        None => cur,
    }
}

/// How the search-result reader handles one XML event.
pub open spec fn search_step(st: SearchReaderV, t: XmlTokenV) -> SearchReaderV {
    let (results, in_item, field, depth, cur) = st;
    match t {
        XmlTokenV::Start(q, raw) => {
            let name = name_of(q);
            if name == "item"@ {
                (results, true, field, depth, empty_item())
            } else if in_item {
                match field {
                    Some(_) => (results, in_item, field, depth + 1, cur),
                    None => (
                        results,
                        in_item,
                        field_for(name),
                        0,
                        if name == "book"@ { with_book_name(cur, raw) } else { cur },
                    ),
                }
            } else {
                st
            }
        },
        XmlTokenV::Empty(q, raw) => {
            if in_item && name_of(q) == "book"@ {
                (results, in_item, field, depth, with_book_name(cur, raw))
            } else {
                st
            }
        },
        XmlTokenV::Text(text) => match field {
            Some(Field::Title) => (results, in_item, field, depth, (cur.0 + text, cur.1, cur.2, cur.3)),
            Some(Field::Link) => (results, in_item, field, depth, (cur.0, cur.1 + text, cur.2, cur.3)),
            Some(Field::Description) => (
                results,
                in_item,
                field,
                depth,
                (cur.0, cur.1, cur.2 + text, cur.3),
            ),
            None => st,
        },
        XmlTokenV::End(q) => {
            if name_of(q) == "item"@ {
                (results.push(item_hit(cur)), false, None, depth, empty_item())
            } else if field is Some {
                if depth == 0 {
                    (results, in_item, None, depth, cur)
                } else {
                    (results, in_item, field, (depth - 1) as nat, cur)
                }
            } else {
                st
            }
        },
        XmlTokenV::Other => st,
    }
}

/// The reader's state after the events `ts`.
pub open spec fn search_run(ts: Seq<XmlTokenV>) -> SearchReaderV
    decreases ts.len(),
{
    if ts.len() == 0 {
        search_start()
    } else {
        search_step(search_run(ts.drop_last()), ts.last())
    }
}

/// The hits of an RSS/OpenSearch document, or the reader's error message.
pub open spec fn search_hits(xml: Seq<char>) -> Result<Seq<HitV>, Seq<char>> {
    match xml_tokens(xml) {
        Ok(ts) => Ok(search_run(ts).0),
        Err(m) => Err(m),
    }
}

impl SearchReader {
    pub fn new() -> (r: SearchReader)
        ensures
            search_reader_view(&r) == search_start(),
    {
        let r = SearchReader {
            results: Vec::new(),
            in_item: false,
            field: None,
            depth: 0,
            cur: ItemBuilder::new(),
        };
        assert(hit_views(r.results@) =~= Seq::<HitV>::empty());
        r
    }

    fn set_book_name(&mut self, raw: &[u8])
        ensures
            final(self).results == old(self).results,
            final(self).in_item == old(self).in_item,
            final(self).field == old(self).field,
            final(self).depth == old(self).depth,
            item_view(&final(self).cur) == with_book_name(item_view(&old(self).cur), raw@),
    {
        let key: Vec<u8> = vec![110u8, 97u8, 109u8, 101u8];
        assert(key@ =~= name_key());
        match attr(raw, key.as_slice()) {
            Some(v) => {
                self.cur.zim_name = to_chars(v.as_str());
            },
            None => {},
        }
    }

    /// Handle one event, as `search_step` says.
    pub fn step(&mut self, t: &XmlToken)
        requires
            old(self).depth < usize::MAX,
        ensures
            search_reader_view(final(self)) == search_step(search_reader_view(old(self)), token_view(*t)),
    {
        match t {
            XmlToken::Start(q, raw) => {
                let name = local_name(q.as_slice());
                let nc = to_chars(name.as_str());
                if eq_str(nc.as_slice(), "item") {
                    self.in_item = true;
                    self.cur = ItemBuilder::new();
                } else if self.in_item {
                    match self.field {
                        Some(_) => {
                            self.depth = self.depth + 1;
                        },
                        None => {
                            self.field = Field::from_name(name.as_str());
                            self.depth = 0;
                            if eq_str(nc.as_slice(), "book") {
                                self.set_book_name(raw.as_slice());
                            }
                        },
                    }
                }
            },
            XmlToken::Empty(q, raw) => {
                if self.in_item {
                    let name = local_name(q.as_slice());
                    let nc = to_chars(name.as_str());
                    if eq_str(nc.as_slice(), "book") {
                        self.set_book_name(raw.as_slice());
                    }
                }
            },
            XmlToken::Text(text) => {
                let tc = to_chars(text.as_str());
                match self.field {
                    Some(Field::Title) => push_all(&mut self.cur.title, tc.as_slice()),
                    Some(Field::Link) => push_all(&mut self.cur.link, tc.as_slice()),
                    Some(Field::Description) => push_all(&mut self.cur.description, tc.as_slice()),
                    None => {},
                }
            },
            XmlToken::End(q) => {
                let name = local_name(q.as_slice());
                let nc = to_chars(name.as_str());
                if eq_str(nc.as_slice(), "item") {
                    self.in_item = false;
                    let mut cur = ItemBuilder::new();
                    std::mem::swap(&mut cur, &mut self.cur);
                    let hit = cur.build();
                    let ghost before = self.results@;
                    self.results.push(hit);
                    proof {
                        assert(hit_views(self.results@) =~= hit_views(before).push(hit_view(hit)));
                    }
                    self.field = None;
                } else if self.field.is_some() {
                    if self.depth == 0 {
                        self.field = None;
                    } else {
                        self.depth = self.depth - 1;
                    }
                }
            },
            XmlToken::Other => {},
        }
    }
}

/// Parse the RSS/OpenSearch XML returned by `/search?format=xml` into search results.
///
/// The document looks like:
/// ```xml
/// <rss><channel>
///   <item>
///     <title>Article Title</title>
///     <link>http://host/content/zimname/A/Article_Path</link>
///     <description>snippet with <b>highlight</b></description>
///     <book name="zimname" .../>
///   </item>
/// </channel></rss>
/// ```
pub fn parse_search_xml(xml: &str) -> (r: Result<Vec<SearchResult>, KiwixError>)
    ensures
        match search_hits(xml@) {
            Ok(hits) => r matches Ok(v) && hit_views(v@) == hits,
            Err(m) => r matches Err(KiwixError::Xml(e)) && e@ == m,
        },
{
    let tokens = match scan_xml(xml) {
        Ok(t) => t,
        Err(e) => return Err(KiwixError::Xml(e)),
    };
    let ghost ts = token_views(tokens@);
    let mut reader = SearchReader::new();
    let mut i: usize = 0;
    while i < tokens.len()
        invariant
            ts == token_views(tokens@),
            i <= tokens@.len(),
            reader.depth <= i,
            search_reader_view(&reader) == search_run(ts.take(i as int)),
        decreases tokens.len() - i,
    {
        proof {
            assert(ts.take(i + 1).drop_last() =~= ts.take(i as int));
            assert(ts.take(i + 1).last() == token_view(tokens@[i as int]));
        }
        reader.step(&tokens[i]);
        i += 1;
    }
    assert(ts.take(i as int) =~= ts);
    Ok(reader.results)
}


/// Which `<entry>` child element text is currently being captured.
#[derive(Clone, Copy, Debug, PartialEq, Eq)]
pub enum CField {
    Title,
    Name,
    Language,
    Description,
    ArticleCount,
    /// A scope whose contents (e.g. `<author><name>…`) must be ignored.
    Skip,
}

pub open spec fn cfield_for(name: Seq<char>) -> Option<CField> {
    if name == "title"@ {
        Some(CField::Title)
    } else if name == "name"@ {
        Some(CField::Name)
    } else if name == "language"@ {
        Some(CField::Language)
    } else if name == "summary"@ || name == "content"@ {
        Some(CField::Description)
    } else if name == "articleCount"@ {
        Some(CField::ArticleCount)
    } else if name == "author"@ || name == "publisher"@ {
        Some(CField::Skip)
    } else {
        None
    }
}

impl CField {
    pub fn from_name(name: &str) -> (r: Option<CField>)
        ensures
            r == cfield_for(name@),
    {
        let n = to_chars(name);
        let n = n.as_slice();
        if eq_str(n, "title") {
            Some(CField::Title)
        } else if eq_str(n, "name") {
            Some(CField::Name)
        } else if eq_str(n, "language") {
            Some(CField::Language)
        } else if eq_str(n, "summary") || eq_str(n, "content") {
            Some(CField::Description)
        } else if eq_str(n, "articleCount") {
            Some(CField::ArticleCount)
        } else if eq_str(n, "author") || eq_str(n, "publisher") {
            Some(CField::Skip)
        } else {
            None
        }
    }
}

/// Text collected for the `<entry>` being read.
pub struct BookBuilder {
    pub title: Vec<char>,
    pub name: Vec<char>,
    pub language: Vec<char>,
    pub description: Vec<char>,
    pub article_count: Option<u64>,
}

/// (title, name, language, description, article count) of a builder or a book.
pub type BookV = (Seq<char>, Seq<char>, Seq<char>, Seq<char>, Option<u64>);

pub open spec fn book_builder_view(b: &BookBuilder) -> BookV {
    (b.title@, b.name@, b.language@, b.description@, b.article_count)
}

pub open spec fn book_view(b: Book) -> BookV {
    (b.title@, b.name@, b.language@, b.description@, b.article_count)
}

pub open spec fn book_views(v: Seq<Book>) -> Seq<BookV> {
    v.map_values(|b: Book| book_view(b))
}

pub open spec fn empty_book() -> BookV {
    (seq![], seq![], seq![], seq![], None)
}

/// The book an entry describes: its description without markup.
pub open spec fn entry_book(b: BookV) -> BookV {
    (b.0, b.1, b.2, strip_html_spec(b.3), b.4)
}

impl BookBuilder {
    pub fn new() -> (b: BookBuilder)
        ensures
            book_builder_view(&b) == empty_book(),
    {
        BookBuilder {
            title: Vec::new(),
            name: Vec::new(),
            language: Vec::new(),
            description: Vec::new(),
            article_count: None,
        }
    }

    pub fn build(self) -> (r: Book)
        ensures
            book_view(r) == entry_book(book_builder_view(&self)),
    {
        let description = from_chars(self.description.as_slice());
        Book {
            title: from_chars(self.title.as_slice()),
            name: from_chars(self.name.as_slice()),
            language: from_chars(self.language.as_slice()),
            description: strip_html(description.as_str()),
            article_count: self.article_count,
        }
    }
}

/// State of the catalog reader: the books so far, whether an `<entry>` is open,
/// the field being captured and the nesting depth below it, and the entry
/// being collected.
pub struct CatalogReader {
    pub books: Vec<Book>,
    pub in_entry: bool,
    pub field: Option<CField>,
    pub depth: usize,
    pub cur: BookBuilder,
}

pub type CatalogReaderV = (Seq<BookV>, bool, Option<CField>, nat, BookV);

pub open spec fn catalog_reader_view(r: &CatalogReader) -> CatalogReaderV {
    (book_views(r.books@), r.in_entry, r.field, r.depth as nat, book_builder_view(&r.cur))
}

pub open spec fn catalog_start() -> CatalogReaderV {
    (seq![], false, None, 0, empty_book())
}

/// How the catalog reader handles one XML event.
pub open spec fn catalog_step(st: CatalogReaderV, t: XmlTokenV) -> CatalogReaderV {
    let (books, in_entry, field, depth, cur) = st;
    match t {
        XmlTokenV::Start(q, _) => {
            let name = name_of(q);
            if name == "entry"@ {
                (books, true, field, depth, empty_book())
            } else if in_entry {
                match field {
                    Some(_) => (books, in_entry, field, depth + 1, cur),
                    None => (books, in_entry, cfield_for(name), 0, cur),
                }
            } else {
                st
            }
        },
        XmlTokenV::Text(text) => match field {
            Some(CField::Title) => (books, in_entry, field, depth, (cur.0 + text, cur.1, cur.2, cur.3, cur.4)),
            Some(CField::Name) => (books, in_entry, field, depth, (cur.0, cur.1 + text, cur.2, cur.3, cur.4)),
            Some(CField::Language) => (books, in_entry, field, depth, (cur.0, cur.1, cur.2 + text, cur.3, cur.4)),
            Some(CField::Description) => (books, in_entry, field, depth, (cur.0, cur.1, cur.2, cur.3 + text, cur.4)),
            Some(CField::ArticleCount) => (
                books,
                in_entry,
                field,
                depth,
                (cur.0, cur.1, cur.2, cur.3, parse_u64_spec(trim(text))),
            ),
            _ => st,
        },
        XmlTokenV::End(q) => {
            if name_of(q) == "entry"@ {
                (books.push(entry_book(cur)), false, None, depth, empty_book())
            } else if field is Some {
                if depth == 0 {
                    (books, in_entry, None, depth, cur)
                } else {
                    (books, in_entry, field, (depth - 1) as nat, cur)
                }
            } else {
                st
            }
        },
        _ => st,
    }
}

/// The catalog reader's state after the events `ts`.
pub open spec fn catalog_run(ts: Seq<XmlTokenV>) -> CatalogReaderV
    decreases ts.len(),
{
    if ts.len() == 0 {
        catalog_start()
    } else {
        catalog_step(catalog_run(ts.drop_last()), ts.last())
    }
}

/// The books of an OPDS feed, or the reader's error message.
pub open spec fn catalog_books(xml: Seq<char>) -> Result<Seq<BookV>, Seq<char>> {
    match xml_tokens(xml) {
        Ok(ts) => Ok(catalog_run(ts).0),
        Err(m) => Err(m),
    }
}

impl CatalogReader {
    pub fn new() -> (r: CatalogReader)
        ensures
            catalog_reader_view(&r) == catalog_start(),
    {
        let r = CatalogReader {
            books: Vec::new(),
            in_entry: false,
            field: None,
            depth: 0,
            cur: BookBuilder::new(),
        };
        assert(book_views(r.books@) =~= Seq::<BookV>::empty());
        r
    }

    /// Handle one event, as `catalog_step` says.
    pub fn step(&mut self, t: &XmlToken)
        requires
            old(self).depth < usize::MAX,
        ensures
            catalog_reader_view(final(self)) == catalog_step(catalog_reader_view(old(self)), token_view(*t)),
    {
        match t {
            XmlToken::Start(q, _) => {
                let name = local_name(q.as_slice());
                let nc = to_chars(name.as_str());
                if eq_str(nc.as_slice(), "entry") {
                    self.in_entry = true;
                    self.cur = BookBuilder::new();
                } else if self.in_entry {
                    match self.field {
                        Some(_) => {
                            self.depth = self.depth + 1;
                        },
                        None => {
                            self.field = CField::from_name(name.as_str());
                            self.depth = 0;
                        },
                    }
                }
            },
            XmlToken::Text(text) => {
                let tc = to_chars(text.as_str());
                match self.field {
                    Some(CField::Title) => push_all(&mut self.cur.title, tc.as_slice()),
                    Some(CField::Name) => push_all(&mut self.cur.name, tc.as_slice()),
                    Some(CField::Language) => push_all(&mut self.cur.language, tc.as_slice()),
                    Some(CField::Description) => push_all(&mut self.cur.description, tc.as_slice()),
                    Some(CField::ArticleCount) => {
                        let t = trim_chars(tc.as_slice());
                        self.cur.article_count = parse_u64(t.as_slice());
                    },
                    _ => {},
                }
            },
            XmlToken::End(q) => {
                let name = local_name(q.as_slice());
                let nc = to_chars(name.as_str());
                if eq_str(nc.as_slice(), "entry") {
                    self.in_entry = false;
                    let mut cur = BookBuilder::new();
                    std::mem::swap(&mut cur, &mut self.cur);
                    let book = cur.build();
                    let ghost before = self.books@;
                    self.books.push(book);
                    proof {
                        assert(book_views(self.books@) =~= book_views(before).push(book_view(book)));
                    }
                    self.field = None;
                } else if self.field.is_some() {
                    if self.depth == 0 {
                        self.field = None;
                    } else {
                        self.depth = self.depth - 1;
                    }
                }
            },
            _ => {},
        }
    }
}

/// Parse the OPDS (Atom) feed from `/catalog/v2/entries` into a list of books.
pub fn parse_catalog_xml(xml: &str) -> (r: Result<Vec<Book>, KiwixError>)
    ensures
        match catalog_books(xml@) {
            Ok(books) => r matches Ok(v) && book_views(v@) == books,
            Err(m) => r matches Err(KiwixError::Xml(e)) && e@ == m,
        },
{
    let tokens = match scan_xml(xml) {
        Ok(t) => t,
        Err(e) => return Err(KiwixError::Xml(e)),
    };
    let ghost ts = token_views(tokens@);
    let mut reader = CatalogReader::new();
    let mut i: usize = 0;
    while i < tokens.len()
        invariant
            ts == token_views(tokens@),
            i <= tokens@.len(),
            reader.depth <= i,
            catalog_reader_view(&reader) == catalog_run(ts.take(i as int)),
        decreases tokens.len() - i,
    {
        proof {
            assert(ts.take(i + 1).drop_last() =~= ts.take(i as int));
            assert(ts.take(i + 1).last() == token_view(tokens@[i as int]));
        }
        reader.step(&tokens[i]);
        i += 1;
    }
    assert(ts.take(i as int) =~= ts);
    Ok(reader.books)
}


/// How many elements named `name` the events `ts` close.
pub open spec fn closes(ts: Seq<XmlTokenV>, name: Seq<char>) -> nat
    decreases ts.len(),
{
    if ts.len() == 0 {
        0
    } else {
        closes(ts.drop_last(), name) + match ts.last() {
            XmlTokenV::End(q) => if name_of(q) == name { 1nat } else { 0nat },
            _ => 0nat,
        }
    }
}

proof fn lemma_catalog_grows(ts: Seq<XmlTokenV>, i: int)
    requires
        0 <= i <= ts.len(),
    ensures
        catalog_run(ts).0.len() == closes(ts, "entry"@),
        catalog_run(ts).0.take(catalog_run(ts.take(i)).0.len() as int) == catalog_run(ts.take(i)).0,
        catalog_run(ts.take(i)).0.len() <= catalog_run(ts).0.len(),
    decreases ts.len(),
{
    if ts.len() == 0 {
        assert(ts.take(i) =~= ts);
    } else if i == ts.len() {
        assert(ts.take(i) =~= ts);
        lemma_catalog_grows(ts.drop_last(), 0);
    } else {
        let p = ts.drop_last();
        lemma_catalog_grows(p, i);
        assert(p.take(i) =~= ts.take(i));
        let before = catalog_run(p).0;
        let after = catalog_run(ts).0;
        let k = catalog_run(ts.take(i)).0.len() as int;
        assert(after == before || after == before.push(after.last()));
        if after != before {
            assert(after.take(k) =~= before.take(k));
        }
    }
}

/// The catalog reader makes one book per `<entry>` element: after any run of
/// events it holds as many books as entries were closed, and the books read
/// after a prefix of the events stay, in order, at the head of the list (a
/// closed entry is appended; nothing read earlier is replaced or dropped).
pub proof fn law_one_book_per_entry(ts: Seq<XmlTokenV>, i: int)
    requires
        0 <= i <= ts.len(),
    ensures
        catalog_run(ts).0.len() == closes(ts, "entry"@),
        catalog_run(ts).0.take(closes(ts.take(i), "entry"@) as int) == catalog_run(ts.take(i)).0,
{
    lemma_catalog_grows(ts, i);
    lemma_catalog_grows(ts.take(i), i);
    assert(ts.take(i).take(i) =~= ts.take(i));
}

/// `parse_catalog_xml` returns, for a feed it can read, one book per
/// `<entry>` element of the feed.
pub proof fn law_catalog_has_every_entry(xml: Seq<char>)
    ensures
        match (catalog_books(xml), xml_tokens(xml)) {
            (Ok(bs), Ok(ts)) => bs.len() == closes(ts, "entry"@),
            _ => true,
        },
{
    match xml_tokens(xml) {
        Ok(ts) => {
            lemma_catalog_grows(ts, 0);
        },
        Err(_) => {},
    }
}

proof fn lemma_search_grows(ts: Seq<XmlTokenV>, i: int)
    requires
        0 <= i <= ts.len(),
    ensures
        search_run(ts).0.len() == closes(ts, "item"@),
        search_run(ts).0.take(search_run(ts.take(i)).0.len() as int) == search_run(ts.take(i)).0,
        search_run(ts.take(i)).0.len() <= search_run(ts).0.len(),
    decreases ts.len(),
{
    if ts.len() == 0 {
        assert(ts.take(i) =~= ts);
    } else if i == ts.len() {
        assert(ts.take(i) =~= ts);
        lemma_search_grows(ts.drop_last(), 0);
    } else {
        let p = ts.drop_last();
        lemma_search_grows(p, i);
        assert(p.take(i) =~= ts.take(i));
        let before = search_run(p).0;
        let after = search_run(ts).0;
        let k = search_run(ts.take(i)).0.len() as int;
        assert(after == before || after == before.push(after.last()));
        if after != before {
            assert(after.take(k) =~= before.take(k));
        }
    }
}

/// The search reader makes one hit per `<item>` element: after any run of
/// events it holds as many hits as items were closed, and the hits read after
/// a prefix of the events stay, in order, at the head of the list.
pub proof fn law_one_hit_per_item(ts: Seq<XmlTokenV>, i: int)
    requires
        0 <= i <= ts.len(),
    ensures
        search_run(ts).0.len() == closes(ts, "item"@),
        search_run(ts).0.take(closes(ts.take(i), "item"@) as int) == search_run(ts.take(i)).0,
{
    lemma_search_grows(ts, i);
    lemma_search_grows(ts.take(i), i);
    assert(ts.take(i).take(i) =~= ts.take(i));
}

/// The state after the events `ts`, one after the other, from `st`.
pub open spec fn catalog_steps(st: CatalogReaderV, ts: Seq<XmlTokenV>) -> CatalogReaderV
    decreases ts.len(),
{
    if ts.len() == 0 {
        st
    } else {
        catalog_step(catalog_steps(st, ts.drop_last()), ts.last())
    }
}

/// The events of an element named by `q` that holds only the text `text`.
pub open spec fn text_element(q: Seq<u8>, raw: Seq<u8>, text: Seq<char>) -> Seq<XmlTokenV> {
    seq![XmlTokenV::Start(q, raw), XmlTokenV::Text(text), XmlTokenV::End(q)]
}

proof fn lemma_catalog_steps_append(st: CatalogReaderV, x: Seq<XmlTokenV>, y: Seq<XmlTokenV>)
    ensures
        catalog_steps(st, x + y) == catalog_steps(catalog_steps(st, x), y),
    decreases y.len(),
{
    if y.len() == 0 {
        assert(x + y =~= x);
    } else {
        assert((x + y).drop_last() =~= x + y.drop_last());
        lemma_catalog_steps_append(st, x, y.drop_last());
    }
}

proof fn lemma_catalog_field(st: CatalogReaderV, q: Seq<u8>, raw: Seq<u8>, text: Seq<char>, f: CField)
    requires
        st.1,
        st.2 is None,
        name_of(q) != "entry"@,
        cfield_for(name_of(q)) == Some(f),
    ensures
        ({
            let r = catalog_steps(st, text_element(q, raw, text));
            let c = st.4;
            &&& r.0 == st.0
            &&& r.1
            &&& r.2 is None
            &&& r.4 == match f {
                CField::Title => (c.0 + text, c.1, c.2, c.3, c.4),
                CField::Name => (c.0, c.1 + text, c.2, c.3, c.4),
                CField::Language => (c.0, c.1, c.2 + text, c.3, c.4),
                CField::Description => (c.0, c.1, c.2, c.3 + text, c.4),
                CField::ArticleCount => (c.0, c.1, c.2, c.3, parse_u64_spec(trim(text))),
                CField::Skip => c,
            }
        }),
{
    let ts = text_element(q, raw, text);
    let s1 = catalog_step(st, XmlTokenV::Start(q, raw));
    let s2 = catalog_step(s1, XmlTokenV::Text(text));
    let s3 = catalog_step(s2, XmlTokenV::End(q));
    assert(s1 == (st.0, st.1, Some(f), 0nat, st.4));
    assert(ts.drop_last().drop_last().drop_last() =~= Seq::<XmlTokenV>::empty());
    assert(catalog_steps(st, ts.drop_last().drop_last().drop_last()) == st);
    assert(ts.drop_last().drop_last().last() == XmlTokenV::Start(q, raw));
    assert(catalog_steps(st, ts.drop_last().drop_last()) == s1);
    assert(ts.drop_last().last() == XmlTokenV::Text(text));
    assert(catalog_steps(st, ts.drop_last()) == s2);
    assert(ts.last() == XmlTokenV::End(q));
    assert(catalog_steps(st, ts) == s3);
}

proof fn lemma_catalog_open(st: CatalogReaderV, entry: Seq<u8>, raw: Seq<u8>)
    requires
        name_of(entry) == "entry"@,
    ensures
        catalog_steps(st, seq![XmlTokenV::Start(entry, raw)]) == (st.0, true, st.2, st.3, empty_book()),
{
    let e0 = seq![XmlTokenV::Start(entry, raw)];
    assert(e0.drop_last() =~= Seq::<XmlTokenV>::empty());
    assert(catalog_steps(st, e0.drop_last()) == st);
    assert(e0.last() == XmlTokenV::Start(entry, raw));
}

proof fn lemma_catalog_close(st: CatalogReaderV, entry: Seq<u8>)
    requires
        name_of(entry) == "entry"@,
    ensures
        catalog_steps(st, seq![XmlTokenV::End(entry)]).0 == st.0.push(entry_book(st.4)),
{
    let e = seq![XmlTokenV::End(entry)];
    assert(e.drop_last() =~= Seq::<XmlTokenV>::empty());
    assert(catalog_steps(st, e.drop_last()) == st);
    assert(e.last() == XmlTokenV::End(entry));
}

proof fn lemma_catalog_names()
    ensures
        "title"@ != "entry"@,
        "name"@ != "entry"@,
        "language"@ != "entry"@,
        "summary"@ != "entry"@,
        cfield_for("title"@) == Some(CField::Title),
        cfield_for("name"@) == Some(CField::Name),
        cfield_for("language"@) == Some(CField::Language),
        cfield_for("summary"@) == Some(CField::Description),
{
    reveal_strlit("entry");
    reveal_strlit("title");
    reveal_strlit("name");
    reveal_strlit("language");
    reveal_strlit("summary");
    assert("entry"@[0] == 'e' && "title"@[0] == 't' && "name"@[0] == 'n' && "language"@[0] == 'l'
        && "summary"@[0] == 's');
}

/// An `<entry>` holding a title, a name, a language and a summary, read
/// where no field is open, adds exactly one book: with that title, that name,
/// that language, the summary without markup as its description, and no
/// article count; the books read before stay as they were.
pub proof fn law_entry_makes_its_book(
    st: CatalogReaderV,
    entry: Seq<u8>,
    title: Seq<u8>,
    name: Seq<u8>,
    language: Seq<u8>,
    summary: Seq<u8>,
    raw: Seq<u8>,
    t: Seq<char>,
    n: Seq<char>,
    l: Seq<char>,
    d: Seq<char>,
)
    requires
        st.2 is None,
        name_of(entry) == "entry"@,
        name_of(title) == "title"@,
        name_of(name) == "name"@,
        name_of(language) == "language"@,
        name_of(summary) == "summary"@,
    ensures
        catalog_steps(
            st,
            seq![XmlTokenV::Start(entry, raw)] + text_element(title, raw, t) + text_element(name, raw, n)
                + text_element(language, raw, l) + text_element(summary, raw, d) + seq![XmlTokenV::End(entry)],
        ).0 == st.0.push((t, n, l, strip_html_spec(d), None::<u64>)),
{
    lemma_catalog_names();
    let e0 = seq![XmlTokenV::Start(entry, raw)];
    let e1 = text_element(title, raw, t);
    let e2 = text_element(name, raw, n);
    let e3 = text_element(language, raw, l);
    let e4 = text_element(summary, raw, d);
    let e5 = seq![XmlTokenV::End(entry)];
    lemma_catalog_open(st, entry, raw);
    let s0 = catalog_steps(st, e0);
    lemma_catalog_field(s0, title, raw, t, CField::Title);
    let s1 = catalog_steps(s0, e1);
    lemma_catalog_field(s1, name, raw, n, CField::Name);
    let s2 = catalog_steps(s1, e2);
    lemma_catalog_field(s2, language, raw, l, CField::Language);
    let s3 = catalog_steps(s2, e3);
    lemma_catalog_field(s3, summary, raw, d, CField::Description);
    let s4 = catalog_steps(s3, e4);
    lemma_catalog_close(s4, entry);
    lemma_catalog_steps_append(st, e0, e1);
    lemma_catalog_steps_append(st, e0 + e1, e2);
    lemma_catalog_steps_append(st, e0 + e1 + e2, e3);
    lemma_catalog_steps_append(st, e0 + e1 + e2 + e3, e4);
    lemma_catalog_steps_append(st, e0 + e1 + e2 + e3 + e4, e5);
    assert(s4.4 == (Seq::<char>::empty() + t, Seq::<char>::empty() + n, Seq::<char>::empty() + l,
        Seq::<char>::empty() + d, None::<u64>));
    assert(Seq::<char>::empty() + t =~= t);
    assert(Seq::<char>::empty() + n =~= n);
    assert(Seq::<char>::empty() + l =~= l);
    assert(Seq::<char>::empty() + d =~= d);
}

proof fn lemma_catalog_steps_run(ts: Seq<XmlTokenV>)
    ensures
        catalog_run(ts) == catalog_steps(catalog_start(), ts),
    decreases ts.len(),
{
    if ts.len() > 0 {
        lemma_catalog_steps_run(ts.drop_last());
    }
}

/// Reading a feed is taking its events one after the other from the
/// reader's start, so what `law_entry_makes_its_book` says of an entry holds
/// of each entry of a feed.
pub proof fn law_feed_is_read_event_by_event(ts: Seq<XmlTokenV>, more: Seq<XmlTokenV>)
    ensures
        catalog_run(ts) == catalog_steps(catalog_start(), ts),
        catalog_run(ts + more) == catalog_steps(catalog_run(ts), more),
{
    lemma_catalog_steps_run(ts);
    lemma_catalog_steps_run(ts + more);
    lemma_catalog_steps_append(catalog_start(), ts, more);
}

/// The state after the events `ts`, one after the other, from `st`.
pub open spec fn search_steps(st: SearchReaderV, ts: Seq<XmlTokenV>) -> SearchReaderV
    decreases ts.len(),
{
    if ts.len() == 0 {
        st
    } else {
        search_step(search_steps(st, ts.drop_last()), ts.last())
    }
}

proof fn lemma_search_steps_append(st: SearchReaderV, x: Seq<XmlTokenV>, y: Seq<XmlTokenV>)
    ensures
        search_steps(st, x + y) == search_steps(search_steps(st, x), y),
    decreases y.len(),
{
    if y.len() == 0 {
        assert(x + y =~= x);
    } else {
        assert((x + y).drop_last() =~= x + y.drop_last());
        lemma_search_steps_append(st, x, y.drop_last());
    }
}

proof fn lemma_search_steps_run(ts: Seq<XmlTokenV>)
    ensures
        search_run(ts) == search_steps(search_start(), ts),
    decreases ts.len(),
{
    if ts.len() > 0 {
        lemma_search_steps_run(ts.drop_last());
    }
}

proof fn lemma_search_field(st: SearchReaderV, q: Seq<u8>, raw: Seq<u8>, text: Seq<char>, f: Field)
    requires
        st.1,
        st.2 is None,
        name_of(q) != "item"@,
        name_of(q) != "book"@,
        field_for(name_of(q)) == Some(f),
    ensures
        ({
            let r = search_steps(st, text_element(q, raw, text));
            let c = st.4;
            &&& r.0 == st.0
            &&& r.1
            &&& r.2 is None
            &&& r.4 == match f {
                Field::Title => (c.0 + text, c.1, c.2, c.3),
                Field::Link => (c.0, c.1 + text, c.2, c.3),
                Field::Description => (c.0, c.1, c.2 + text, c.3),
            }
        }),
{
    let ts = text_element(q, raw, text);
    let s1 = search_step(st, XmlTokenV::Start(q, raw));
    let s2 = search_step(s1, XmlTokenV::Text(text));
    let s3 = search_step(s2, XmlTokenV::End(q));
    assert(s1 == (st.0, st.1, Some(f), 0nat, st.4));
    assert(ts.drop_last().drop_last().drop_last() =~= Seq::<XmlTokenV>::empty());
    assert(search_steps(st, ts.drop_last().drop_last().drop_last()) == st);
    assert(ts.drop_last().drop_last().last() == XmlTokenV::Start(q, raw));
    assert(search_steps(st, ts.drop_last().drop_last()) == s1);
    assert(ts.drop_last().last() == XmlTokenV::Text(text));
    assert(search_steps(st, ts.drop_last()) == s2);
    assert(ts.last() == XmlTokenV::End(q));
    assert(search_steps(st, ts) == s3);
}

proof fn lemma_search_open_close(st: SearchReaderV, item: Seq<u8>, raw: Seq<u8>)
    requires
        name_of(item) == "item"@,
    ensures
        search_steps(st, seq![XmlTokenV::Start(item, raw)]) == (st.0, true, st.2, st.3, empty_item()),
        search_steps(st, seq![XmlTokenV::End(item)]).0 == st.0.push(item_hit(st.4)),
{
    let e0 = seq![XmlTokenV::Start(item, raw)];
    assert(e0.drop_last() =~= Seq::<XmlTokenV>::empty());
    assert(search_steps(st, e0.drop_last()) == st);
    assert(e0.last() == XmlTokenV::Start(item, raw));
    let e = seq![XmlTokenV::End(item)];
    assert(e.drop_last() =~= Seq::<XmlTokenV>::empty());
    assert(search_steps(st, e.drop_last()) == st);
    assert(e.last() == XmlTokenV::End(item));
}

proof fn lemma_search_names()
    ensures
        "title"@ != "item"@,
        "link"@ != "item"@,
        "description"@ != "item"@,
        "title"@ != "book"@,
        "link"@ != "book"@,
        "description"@ != "book"@,
        field_for("title"@) == Some(Field::Title),
        field_for("link"@) == Some(Field::Link),
        field_for("description"@) == Some(Field::Description),
{
    reveal_strlit("item");
    reveal_strlit("book");
    reveal_strlit("title");
    reveal_strlit("link");
    reveal_strlit("description");
    assert("item"@[0] == 'i' && "book"@[0] == 'b' && "title"@[0] == 't' && "link"@[0] == 'l'
        && "description"@[0] == 'd');
}

/// An `<item>` holding a title, a link and a description, read where no
/// field is open, adds exactly one hit: with that title, the ZIM name and
/// path that the link names, and the description without markup as its
/// snippet; the hits read before stay as they were.
pub proof fn law_item_makes_its_hit(
    st: SearchReaderV,
    item: Seq<u8>,
    title: Seq<u8>,
    link: Seq<u8>,
    description: Seq<u8>,
    raw: Seq<u8>,
    t: Seq<char>,
    l: Seq<char>,
    d: Seq<char>,
)
    requires
        st.2 is None,
        name_of(item) == "item"@,
        name_of(title) == "title"@,
        name_of(link) == "link"@,
        name_of(description) == "description"@,
    ensures
        search_steps(
            st,
            seq![XmlTokenV::Start(item, raw)] + text_element(title, raw, t) + text_element(link, raw, l)
                + text_element(description, raw, d) + seq![XmlTokenV::End(item)],
        ).0 == st.0.push((t, split_url(l).0, split_url(l).1, strip_html_spec(d))),
{
    lemma_search_names();
    let e0 = seq![XmlTokenV::Start(item, raw)];
    let e1 = text_element(title, raw, t);
    let e2 = text_element(link, raw, l);
    let e3 = text_element(description, raw, d);
    let e4 = seq![XmlTokenV::End(item)];
    lemma_search_open_close(st, item, raw);
    let s0 = search_steps(st, e0);
    lemma_search_field(s0, title, raw, t, Field::Title);
    let s1 = search_steps(s0, e1);
    lemma_search_field(s1, link, raw, l, Field::Link);
    let s2 = search_steps(s1, e2);
    lemma_search_field(s2, description, raw, d, Field::Description);
    let s3 = search_steps(s2, e3);
    lemma_search_open_close(s3, item, raw);
    lemma_search_steps_append(st, e0, e1);
    lemma_search_steps_append(st, e0 + e1, e2);
    lemma_search_steps_append(st, e0 + e1 + e2, e3);
    lemma_search_steps_append(st, e0 + e1 + e2 + e3, e4);
    assert(Seq::<char>::empty() + t =~= t);
    assert(Seq::<char>::empty() + l =~= l);
    assert(Seq::<char>::empty() + d =~= d);
}

/// Reading a search document is taking its events one after the other from
/// the reader's start, so what `law_item_makes_its_hit` says of an item holds
/// of each item of a document.
pub proof fn law_results_are_read_event_by_event(ts: Seq<XmlTokenV>, more: Seq<XmlTokenV>)
    ensures
        search_run(ts) == search_steps(search_start(), ts),
        search_run(ts + more) == search_steps(search_run(ts), more),
{
    lemma_search_steps_run(ts);
    lemma_search_steps_run(ts + more);
    lemma_search_steps_append(search_start(), ts, more);
}

proof fn lemma_find_skip(s: Seq<char>, p: Seq<char>, from: int, to: int)
    requires
        0 <= from <= to,
        to + p.len() <= s.len(),
        forall|j: int| from <= j < to ==> !occurs_at(s, p, j),
    ensures
        find_from(s, p, from) == find_from(s, p, to),
    decreases to - from,
{
    if from < to {
        lemma_find_skip(s, p, from + 1, to);
    }
}

proof fn lemma_first_char_skip(s: Seq<char>, c: char, from: int, to: int)
    requires
        0 <= from <= to < s.len(),
        forall|j: int| from <= j < to ==> s[j] != c,
        s[to] == c,
    ensures
        first_from(s, c, from) == Some(to),
    decreases to - from,
{
    if from < to {
        lemma_first_char_skip(s, c, from + 1, to);
    }
}

/// A link `…/content/<zim>/<path>` names the ZIM `zim` and the path `path`
/// (which may hold further slashes), provided the marker `/content/` does not
/// occur earlier in the link.
pub proof fn law_content_links(pre: Seq<char>, zim: Seq<char>, path: Seq<char>)
    requires
        forall|j: int| 0 <= j < pre.len() ==> !occurs_at(pre + "/content/"@, "/content/"@, j),
        forall|k: int| 0 <= k < zim.len() ==> zim[k] != '/',
    ensures
        split_url(pre + "/content/"@ + zim + "/"@ + path) == (zim, path),
{
    reveal_strlit("/content/");
    reveal_strlit("/");
    let m = "/content/"@;
    let s = pre + m + zim + "/"@ + path;
    let h = pre + m;
    assert forall|j: int| 0 <= j < pre.len() implies !occurs_at(s, m, j) by {
        assert(!occurs_at(pre + "/content/"@, "/content/"@, j));
        assert(j + m.len() <= h.len());
        if occurs_at(s, m, j) {
            assert(s.subrange(j, j + m.len()) =~= h.subrange(j, j + m.len()));
            assert(occurs_at(h, m, j));
        }
    }
    assert(s.subrange(pre.len() as int, pre.len() + m.len() as int) =~= m);
    lemma_find_skip(s, m, 0, pre.len() as int);
    let rest = s.skip(pre.len() + m.len() as int);
    assert(rest =~= zim + "/"@ + path);
    assert forall|j: int| 0 <= j < zim.len() implies rest[j] != '/' by {
        assert(rest[j] == zim[j]);
    }
    lemma_first_char_skip(rest, '/', 0, zim.len() as int);
    assert(rest.take(zim.len() as int) =~= zim);
    assert(rest.skip(zim.len() + 1int) =~= path);
}

} // verus!
