use kiwix_chat::kiwix::article::{article_page, grep_article_html};
use kiwix_chat::kiwix::parse::{parse_catalog_xml, parse_search_xml, split_content_url, strip_html};
use kiwix_chat::kiwix::KiwixError;

#[test]
fn parses_search_results() {
    let xml = r#"<?xml version="1.0"?>
        <rss version="2.0" xmlns:opensearch="http://a9.com/-/spec/opensearch/1.1/">
          <channel>
            <title>Search</title>
            <item>
              <title>Ada Lovelace</title>
              <link>http://localhost:8080/content/wikipedia_en_all/A/Ada_Lovelace</link>
              <description>An &lt;b&gt;English&lt;/b&gt; mathematician &amp; writer</description>
              <book title="Wikipedia" id="abc" name="wikipedia_en_all"/>
            </item>
            <item>
              <title>Charles Babbage</title>
              <link>http://localhost:8080/content/wikipedia_en_all/A/Charles_Babbage</link>
              <description>Inventor</description>
            </item>
          </channel>
        </rss>"#;
    let r = parse_search_xml(xml).unwrap();
    assert_eq!(r.len(), 2);
    assert_eq!(r[0].title, "Ada Lovelace");
    assert_eq!(r[0].zim_name, "wikipedia_en_all");
    assert_eq!(r[0].path, "A/Ada_Lovelace");
    assert_eq!(r[0].snippet, "An English mathematician & writer");
    // Second item has no <book>, so zim/path come from the link.
    assert_eq!(r[1].zim_name, "wikipedia_en_all");
    assert_eq!(r[1].path, "A/Charles_Babbage");
}

#[test]
fn parses_catalog_entries() {
    let xml = r#"<?xml version="1.0"?>
        <feed xmlns="http://www.w3.org/2005/Atom">
          <entry>
            <title>Wikipedia (English)</title>
            <summary>The free encyclopedia</summary>
            <language>eng</language>
            <name>wikipedia_en_all_maxi</name>
            <articleCount>6543210</articleCount>
            <author><name>Wikipedia</name></author>
            <publisher><name>Kiwix</name></publisher>
          </entry>
        </feed>"#;
    let b = parse_catalog_xml(xml).unwrap();
    assert_eq!(b.len(), 1);
    assert_eq!(b[0].title, "Wikipedia (English)");
    assert_eq!(b[0].name, "wikipedia_en_all_maxi");
    assert_eq!(b[0].language, "eng");
    assert_eq!(b[0].description, "The free encyclopedia");
    assert_eq!(b[0].article_count, Some(6543210));
}

#[test]
fn strips_tags_and_entities() {
    assert_eq!(strip_html("<p>a &amp; b</p>"), "a & b");
}

#[test]
fn strip_html_collapses_whitespace_and_decodes_entities() {
    assert_eq!(strip_html("  <b>x</b>\n\t&lt;y&gt;&nbsp;&quot;z&quot; &#39;w&#39;  "), "x <y> \"z\" 'w'");
}

#[test]
fn nested_markup_inside_a_captured_field_is_kept_as_text() {
    let xml = "<rss><channel><item><title>A <b>bold</b> title</title>\
               <link>http://h/content/zim/A/P</link></item></channel></rss>";
    let r = parse_search_xml(xml).unwrap();
    assert_eq!(r.len(), 1);
    assert_eq!(r[0].title, "Aboldtitle");
}

#[test]
fn malformed_search_xml_is_an_error() {
    let r = parse_search_xml("<rss><item></rss>");
    assert!(matches!(r, Err(KiwixError::Xml(_))));
}

#[test]
fn article_count_that_is_not_a_number_is_absent() {
    let xml = "<feed><entry><name>n</name><articleCount> lots </articleCount></entry></feed>";
    let b = parse_catalog_xml(xml).unwrap();
    assert_eq!(b[0].article_count, None);
    let xml = "<feed><entry><articleCount> +42 </articleCount></entry></feed>";
    let b = parse_catalog_xml(xml).unwrap();
    assert_eq!(b[0].article_count, Some(42));
}

#[test]
fn splits_content_urls() {
    assert_eq!(
        split_content_url("http://h/content/zim/A/B"),
        ("zim".to_string(), "A/B".to_string())
    );
    assert_eq!(split_content_url("http://h/content/zim"), ("zim".to_string(), String::new()));
    assert_eq!(split_content_url("http://h/other"), (String::new(), String::new()));
}

#[test]
fn renders_article_pages_from_html() {
    let page = article_page("<p>Hello <b>world</b></p>", 0, 5).unwrap();
    assert_eq!(page.text, "Hello");
    assert_eq!(page.offset, 0);
    assert_eq!(page.next_offset, Some(5));
    assert!(page.total_chars > 5);
    let rest = article_page("<p>Hello <b>world</b></p>", 5, 1000).unwrap();
    assert_eq!(rest.offset, 5);
    assert_eq!(rest.next_offset, None);
    assert!(rest.text.contains("world"));
    assert!(!rest.text.contains('<'));
    let g = grep_article_html("<p>one</p><p>two cat</p>", "CAT", 0).unwrap();
    assert_eq!(g.match_count, 1);
    assert_eq!(g.blocks.len(), 1);
    assert_eq!(g.blocks[0].lines, vec!["two cat".to_string()]);
}

#[test]
fn strip_html_decodes_each_entity_once() {
    assert_eq!(strip_html("&amp;lt;"), "&lt;");
    assert_eq!(strip_html("AT&amp;T"), "AT&T");
    assert_eq!(strip_html("&amp;amp;"), "&amp;");
}
