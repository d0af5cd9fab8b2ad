use kiwix_chat::agent::tools::{
    args_source, calculate, calculation_report, list_books_report, read_report, research_lang,
    search_params, search_report, tool_defs, tool_kind, unknown_tool_report, CalcArgs, ReadArgs,
    ResearchArgs, Scalar, SearchArgs, ToolContent, ToolKind, EvalOutcome, outcome_text,
};
use kiwix_chat::kiwix::{Book, SearchResult};

#[test]
fn selects_tools_by_name() {
    assert_eq!(tool_kind("search_wikipedia"), ToolKind::SearchWikipedia);
    assert_eq!(tool_kind("read_article"), ToolKind::ReadArticle);
    assert_eq!(tool_kind("list_books"), ToolKind::ListBooks);
    assert_eq!(tool_kind("calculate"), ToolKind::Calculate);
    assert_eq!(tool_kind("research"), ToolKind::Research);
    assert_eq!(tool_kind("Calculate"), ToolKind::Unknown);
}

#[test]
fn blank_arguments_read_as_empty_object() {
    assert_eq!(args_source("  "), "{}");
    assert_eq!(args_source(" {\"a\":1} "), "{\"a\":1}");
}

#[test]
fn search_defaults_and_reports() {
    let args = SearchArgs { query: "ada".to_string(), lang: None, limit: None };
    assert_eq!(search_params(&args, "eng"), ("eng".to_string(), 8));
    let args = SearchArgs { query: "ada".to_string(), lang: Some("fra".to_string()), limit: Some(3) };
    assert_eq!(search_params(&args, "eng"), ("fra".to_string(), 3));
    let none = search_report("ada", "eng", &vec![]);
    assert_eq!(none.summary, "Searched Wikipedia for \"ada\" (0 results)");
    assert_eq!(none.content, ToolContent::Text("No results found for \"ada\" in language 'eng'.".to_string()));
    let hit = SearchResult {
        title: "Ada".to_string(),
        zim_name: "w".to_string(),
        path: "A/Ada".to_string(),
        snippet: "s".to_string(),
    };
    let one = search_report("ada", "eng", &vec![hit]);
    assert_eq!(one.summary, "Searched Wikipedia for \"ada\" (1 result)");
    match one.content {
        ToolContent::Listing { key, items } => {
            assert_eq!(key, "results");
            assert_eq!(items.len(), 1);
            assert_eq!(items[0][0], ("title".to_string(), Scalar::Str("Ada".to_string())));
        }
        _ => panic!("expected a listing"),
    }
}

#[test]
fn read_and_list_reports() {
    let args = ReadArgs { zim_name: "w".to_string(), path: "A/Ada".to_string() };
    let r = read_report(&args, "héllo");
    assert_eq!(r.summary, "Read 'A/Ada' (5 chars)");
    let books = vec![Book {
        title: "T".to_string(),
        name: "n".to_string(),
        language: "eng".to_string(),
        description: "d".to_string(),
        article_count: None,
    }];
    let l = list_books_report(&books);
    assert_eq!(l.summary, "Listed 1 book(s)");
    match l.content {
        ToolContent::Listing { items, .. } => {
            assert_eq!(items[0][3], ("article_count".to_string(), Scalar::Null));
        }
        _ => panic!("expected a listing"),
    }
}

#[test]
fn calculates_and_reports_errors() {
    let r = calculate(&CalcArgs { expression: " 2 * (3 + 4) ".to_string() });
    assert_eq!(r.summary, "Calculated 2 * (3 + 4) = 14");
    assert_eq!(
        r.content,
        ToolContent::Record(vec![
            ("expression".to_string(), Scalar::Str("2 * (3 + 4)".to_string())),
            ("result".to_string(), Scalar::Str("14".to_string())),
        ])
    );
    let f = calculate(&CalcArgs { expression: "1 / 4.0".to_string() });
    assert_eq!(f.summary, "Calculated 1 / 4.0 = 0.25");
    let bad = calculate(&CalcArgs { expression: "2 +".to_string() });
    assert!(bad.summary.starts_with("Calculation failed: "));
    let e = calculation_report("x", Err("boom".to_string()));
    assert_eq!(e.content, ToolContent::Text("Error evaluating \"x\": boom".to_string()));
    assert_eq!(e.summary, "Calculation failed: boom");
}

#[test]
fn unknown_tools_and_research_language() {
    let u = unknown_tool_report("nope");
    assert_eq!(u.content, ToolContent::Text("Error: unknown tool 'nope'.".to_string()));
    assert_eq!(u.summary, "Unknown tool 'nope'");
    let a = ResearchArgs { question: "q".to_string(), lang: None };
    assert_eq!(research_lang(&a, "eng"), "eng");
}

#[test]
fn offers_the_three_documented_tools() {
    let defs = tool_defs("eng");
    let names: Vec<&str> = defs.iter().map(|d| d.name.as_str()).collect();
    assert_eq!(names, vec!["search_wikipedia", "read_article", "list_books"]);
    assert_eq!(defs[0].required, vec!["query"]);
    assert_eq!(defs[0].params[1].description, "3-letter language code to scope the search (default: eng).");
    assert_eq!(defs[0].params[2].range, Some((1, 140)));
    assert_eq!(defs[1].required, vec!["zim_name", "path"]);
    assert!(defs[2].params.is_empty());
}

#[test]
fn calculate_writes_integers_and_booleans() {
    assert_eq!(calculate(&CalcArgs { expression: "  007 ".to_string() }).summary, "Calculated 007 = 7");
    assert_eq!(calculate(&CalcArgs { expression: "3 - 10".to_string() }).summary, "Calculated 3 - 10 = -7");
    assert_eq!(calculate(&CalcArgs { expression: "1 < 2".to_string() }).summary, "Calculated 1 < 2 = true");
    assert_eq!(
        outcome_text(EvalOutcome::Int(-9223372036854775808)),
        Ok("-9223372036854775808".to_string())
    );
    assert_eq!(outcome_text(EvalOutcome::Boolean(false)), Ok("false".to_string()));
    assert_eq!(outcome_text(EvalOutcome::Failed("e".to_string())), Err("e".to_string()));
}
