//! The agent's tools: which one a call names, what its arguments default to,
//! and the result text and status line each one reports.
use vstd::prelude::*;

use crate::kiwix::{Book, SearchResult};
use crate::text::{
    all_digits, decimal, digits_value, from_chars, owned, push_decimal, push_str, to_chars, trim,
    trim_chars,
};

verus! {

/// The tools the model can call.
#[derive(Debug, Clone, Copy, PartialEq, Eq, Structural)]
pub enum ToolKind {
    SearchWikipedia,
    ReadArticle,
    ListBooks,
    Calculate,
    Research,
    Unknown,
}

/// The tool a call's function name selects.
pub open spec fn kind_of(name: Seq<char>) -> ToolKind {
    if name == "search_wikipedia"@ {
        ToolKind::SearchWikipedia
    } else if name == "read_article"@ {
        ToolKind::ReadArticle
    } else if name == "list_books"@ {
        ToolKind::ListBooks
    } else if name == "calculate"@ {
        ToolKind::Calculate
    } else if name == "research"@ {
        ToolKind::Research
    } else {
        ToolKind::Unknown
    }
}

/// The tool a call's function name selects.
pub fn tool_kind(name: &str) -> (k: ToolKind)
    ensures
        k == kind_of(name@),
{
    let n = to_chars(name);
    let s = n.as_slice();
    if crate::text::eq_str(s, "search_wikipedia") {
        ToolKind::SearchWikipedia
    } else if crate::text::eq_str(s, "read_article") {
        ToolKind::ReadArticle
    } else if crate::text::eq_str(s, "list_books") {
        ToolKind::ListBooks
    } else if crate::text::eq_str(s, "calculate") {
        ToolKind::Calculate
    } else if crate::text::eq_str(s, "research") {
        ToolKind::Research
    } else {
        ToolKind::Unknown
    }
}

/// The JSON text a call's arguments are read from: the arguments without
/// surrounding whitespace, or an empty object when nothing is left.
pub open spec fn args_text(arguments: Seq<char>) -> Seq<char> {
    if trim(arguments).len() == 0 { "{}"@ } else { trim(arguments) }
}

/// The JSON text a call's arguments are read from; empty arguments read as `{}`.
pub fn args_source(arguments: &str) -> (r: String)
    ensures
        r@ == args_text(arguments@),
{
    let c = to_chars(arguments);
    let t = trim_chars(c.as_slice());
    if t.len() == 0 {
        proof {
            reveal_strlit("{}");
        }
        owned("{}")
    } else {
        from_chars(t.as_slice())
    }
}

/// Arguments of `search_wikipedia`.
#[derive(Debug, Clone, PartialEq)]
pub struct SearchArgs {
    pub query: String,
    pub lang: Option<String>,
    pub limit: Option<usize>,
}

/// Arguments of `read_article`.
#[derive(Debug, Clone, PartialEq)]
pub struct ReadArgs {
    pub zim_name: String,
    pub path: String,
}

/// Arguments of `calculate`.
#[derive(Debug, Clone, PartialEq)]
pub struct CalcArgs {
    pub expression: String,
}

/// Arguments of `research`.
#[derive(Debug, Clone, PartialEq)]
pub struct ResearchArgs {
    pub question: String,
    pub lang: Option<String>,
}

/// A JSON scalar in a tool's result.
#[derive(Debug, Clone, PartialEq)]
pub enum Scalar {
    Str(String),
    Int(u64),
    Null,
}

/// The view of a `Scalar`.
pub enum ScalarV {
    Str(Seq<char>),
    Int(u64),
    Null,
}

/// What a tool hands back to the model: plain text, a JSON object written
/// on one line, or a JSON object `{key: [objects]}` written indented.
#[derive(Debug, Clone, PartialEq)]
pub enum ToolContent {
    Text(String),
    Record(Vec<(String, Scalar)>),
    Listing { key: String, items: Vec<Vec<(String, Scalar)>> },
}

/// The view of a `ToolContent`.
pub enum ContentV {
    Text(Seq<char>),
    Record(Seq<(Seq<char>, ScalarV)>),
    Listing(Seq<char>, Seq<Seq<(Seq<char>, ScalarV)>>),
}

/// A tool's result for the model and its status line for the UI.
#[derive(Debug, Clone, PartialEq)]
pub struct ToolReport {
    pub content: ToolContent,
    pub summary: String,
}

pub open spec fn scalar_view(s: Scalar) -> ScalarV {
    match s {
        Scalar::Str(t) => ScalarV::Str(t@),
        Scalar::Int(n) => ScalarV::Int(n),
        Scalar::Null => ScalarV::Null,
    }
}

pub open spec fn record_view(r: Seq<(String, Scalar)>) -> Seq<(Seq<char>, ScalarV)> {
    r.map_values(|p: (String, Scalar)| (p.0@, scalar_view(p.1)))
}

pub open spec fn content_view(c: ToolContent) -> ContentV {
    match c {
        ToolContent::Text(t) => ContentV::Text(t@),
        ToolContent::Record(r) => ContentV::Record(record_view(r@)),
        ToolContent::Listing { key, items } => ContentV::Listing(
            key@,
            items@.map_values(|v: Vec<(String, Scalar)>| record_view(v@)),
        ),
    }
}

fn field(key: &str, value: Scalar) -> (r: (String, Scalar))
    ensures
        r.0@ == key@,
        r.1 == value,
{
    (owned(key), value)
}

fn text_of(s: &String) -> (r: Scalar)
    ensures
        scalar_view(r) == ScalarV::Str(s@),
{
    Scalar::Str(owned(s.as_str()))
}

/// The language and hit limit a search runs with: those given, else the
/// default language and `DEFAULT_SEARCH_LIMIT`.
pub fn search_params(args: &SearchArgs, default_lang: &str) -> (r: (String, usize))
    ensures
        r.0@ == (match args.lang {
            Some(l) => l@,
            None => default_lang@,
        }),
        r.1 == (match args.limit {
            Some(n) => n,
            None => crate::agent::DEFAULT_SEARCH_LIMIT,
        }),
{
    let lang = match &args.lang {
        Some(l) => owned(l.as_str()),
        None => owned(default_lang),
    };
    let limit = match args.limit {
        Some(n) => n,
        None => crate::agent::DEFAULT_SEARCH_LIMIT,
    };
    (lang, limit)
}

/// The language a research sub-agent works in: the one given, else `lang`.
pub fn research_lang(args: &ResearchArgs, lang: &str) -> (r: String)
    ensures
        r@ == (match args.lang {
            Some(l) => l@,
            None => lang@,
        }),
{
    match &args.lang {
        Some(l) => owned(l.as_str()),
        None => owned(lang),
    }
}

/// The status line of a search for `query` that found `n` articles.
pub open spec fn search_summary_spec(query: Seq<char>, n: nat) -> Seq<char> {
    "Searched Wikipedia for \""@ + query + "\" ("@ + decimal(n) + " result"@ + (if n == 1 {
        ""@
    } else {
        "s"@
    }) + ")"@
}

/// One search hit as the model sees it.
pub open spec fn search_item(r: SearchResult) -> Seq<(Seq<char>, ScalarV)> {
    seq![
        ("title"@, ScalarV::Str(r.title@)),
        ("zim_name"@, ScalarV::Str(r.zim_name@)),
        ("path"@, ScalarV::Str(r.path@)),
        ("snippet"@, ScalarV::Str(r.snippet@)),
    ]
}

fn search_item_exec(r: &SearchResult) -> (v: Vec<(String, Scalar)>)
    ensures
        record_view(v@) == search_item(*r),
{
    let mut v: Vec<(String, Scalar)> = Vec::new();
    v.push(field("title", text_of(&r.title)));
    v.push(field("zim_name", text_of(&r.zim_name)));
    v.push(field("path", text_of(&r.path)));
    v.push(field("snippet", text_of(&r.snippet)));
    assert(record_view(v@) =~= search_item(*r));
    v
}

/// The result of searching for `query` in language `lang`.
pub fn search_report(query: &str, lang: &str, results: &Vec<SearchResult>) -> (r: ToolReport)
    ensures
        r.summary@ == search_summary_spec(query@, results@.len()),
        results@.len() == 0 ==> content_view(r.content) == ContentV::Text(
            "No results found for \""@ + query@ + "\" in language '"@ + lang@ + "'."@,
        ),
        results@.len() > 0 ==> content_view(r.content) == ContentV::Listing(
            "results"@,
            results@.map_values(|x: SearchResult| search_item(x)),
        ),
{
    let n = results.len();
    let mut s: Vec<char> = Vec::new();
    push_str(&mut s, "Searched Wikipedia for \"");
    push_str(&mut s, query);
    push_str(&mut s, "\" (");
    push_decimal(&mut s, n as u64);
    push_str(&mut s, " result");
    if n == 1 {
        push_str(&mut s, "");
    } else {
        push_str(&mut s, "s");
    }
    push_str(&mut s, ")");
    let summary = from_chars(s.as_slice());
    if n == 0 {
        let mut c: Vec<char> = Vec::new();
        push_str(&mut c, "No results found for \"");
        push_str(&mut c, query);
        push_str(&mut c, "\" in language '");
        push_str(&mut c, lang);
        push_str(&mut c, "'.");
        return ToolReport { content: ToolContent::Text(from_chars(c.as_slice())), summary };
    }
    let mut items: Vec<Vec<(String, Scalar)>> = Vec::new();
    let mut i: usize = 0;
    while i < n
        invariant
            n == results@.len(),
            i <= n,
            items@.map_values(|v: Vec<(String, Scalar)>| record_view(v@)) =~= results@.take(
                i as int,
            ).map_values(|x: SearchResult| search_item(x)),
        decreases n - i,
    {
        let ghost prev = items@;
        let it = search_item_exec(&results[i]);
        items.push(it);
        proof {
            assert(items@ =~= prev.push(it));
            assert(items@.map_values(|v: Vec<(String, Scalar)>| record_view(v@)) =~= prev.map_values(
                |v: Vec<(String, Scalar)>| record_view(v@),
            ).push(record_view(it@)));
            assert(results@.take(i + 1) =~= results@.take(i as int).push(results@[i as int]));
            assert(results@.take(i + 1).map_values(|x: SearchResult| search_item(x)) =~= results@.take(i as int).map_values(
                |x: SearchResult| search_item(x),
            ).push(search_item(results@[i as int])));
        }
        i += 1;
    }
    assert(results@.take(n as int) =~= results@);
    ToolReport { content: ToolContent::Listing { key: owned("results"), items }, summary }
}

/// The result of reading the article at `path` in `zim_name`, whose text
/// (the first page) is `text`.
pub fn read_report(args: &ReadArgs, text: &str) -> (r: ToolReport)
    ensures
        r.summary@ == "Read '"@ + args.path@ + "' ("@ + decimal(text@.len()) + " chars)"@,
        content_view(r.content) == ContentV::Record(
            seq![
                ("zim_name"@, ScalarV::Str(args.zim_name@)),
                ("path"@, ScalarV::Str(args.path@)),
                ("text"@, ScalarV::Str(text@)),
            ],
        ),
{
    let chars = to_chars(text);
    let n = chars.len();
    let mut s: Vec<char> = Vec::new();
    push_str(&mut s, "Read '");
    push_str(&mut s, args.path.as_str());
    push_str(&mut s, "' (");
    push_decimal(&mut s, n as u64);
    push_str(&mut s, " chars)");
    let mut v: Vec<(String, Scalar)> = Vec::new();
    v.push(field("zim_name", text_of(&args.zim_name)));
    v.push(field("path", text_of(&args.path)));
    v.push(field("text", Scalar::Str(owned(text))));
    assert(record_view(v@) =~= seq![
        ("zim_name"@, ScalarV::Str(args.zim_name@)),
        ("path"@, ScalarV::Str(args.path@)),
        ("text"@, ScalarV::Str(text@)),
    ]);
    ToolReport { content: ToolContent::Record(v), summary: from_chars(s.as_slice()) }
}

/// One book as the model sees it.
pub open spec fn book_item(b: Book) -> Seq<(Seq<char>, ScalarV)> {
    seq![
        ("name"@, ScalarV::Str(b.name@)),
        ("title"@, ScalarV::Str(b.title@)),
        ("language"@, ScalarV::Str(b.language@)),
        ("article_count"@, match b.article_count {
            Some(n) => ScalarV::Int(n),
            None => ScalarV::Null,
        }),
        ("description"@, ScalarV::Str(b.description@)),
    ]
}

fn book_item_exec(b: &Book) -> (v: Vec<(String, Scalar)>)
    ensures
        record_view(v@) == book_item(*b),
{
    let mut v: Vec<(String, Scalar)> = Vec::new();
    v.push(field("name", text_of(&b.name)));
    v.push(field("title", text_of(&b.title)));
    v.push(field("language", text_of(&b.language)));
    let count = match b.article_count {
        Some(n) => Scalar::Int(n),
        None => Scalar::Null,
    };
    v.push(field("article_count", count));
    v.push(field("description", text_of(&b.description)));
    assert(record_view(v@) =~= book_item(*b));
    v
}

/// The result of listing the library's books.
pub fn list_books_report(books: &Vec<Book>) -> (r: ToolReport)
    ensures
        r.summary@ == "Listed "@ + decimal(books@.len()) + " book(s)"@,
        content_view(r.content) == ContentV::Listing("books"@, books@.map_values(|b: Book| book_item(b))),
{
    let n = books.len();
    let mut s: Vec<char> = Vec::new();
    push_str(&mut s, "Listed ");
    push_decimal(&mut s, n as u64);
    push_str(&mut s, " book(s)");
    let mut items: Vec<Vec<(String, Scalar)>> = Vec::new();
    let mut i: usize = 0;
    while i < n
        invariant
            n == books@.len(),
            i <= n,
            items@.map_values(|v: Vec<(String, Scalar)>| record_view(v@)) =~= books@.take(
                i as int,
            ).map_values(|b: Book| book_item(b)),
        decreases n - i,
    {
        let ghost prev = items@;
        let it = book_item_exec(&books[i]);
        items.push(it);
        proof {
            assert(items@ =~= prev.push(it));
            assert(items@.map_values(|v: Vec<(String, Scalar)>| record_view(v@)) =~= prev.map_values(
                |v: Vec<(String, Scalar)>| record_view(v@),
            ).push(record_view(it@)));
            assert(books@.take(i + 1) =~= books@.take(i as int).push(books@[i as int]));
            assert(books@.take(i + 1).map_values(|b: Book| book_item(b)) =~= books@.take(i as int).map_values(
                |b: Book| book_item(b),
            ).push(book_item(books@[i as int])));
        }
        i += 1;
    }
    assert(books@.take(n as int) =~= books@);
    ToolReport {
        content: ToolContent::Listing { key: owned("books"), items },
        summary: from_chars(s.as_slice()),
    }
}

pub open spec fn text_result(r: Result<String, String>) -> Result<Seq<char>, Seq<char>> {
    match r {
        Ok(v) => Ok(v@),
        Err(e) => Err(e@),
    }
}

/// What the evaluator handed back: an integer or a boolean, which the
/// library writes out itself; any other value already written as text
/// (floats by `to_string`, strings as they are, other values by their `Debug`
/// form); or the error's message.
#[derive(Debug, Clone, PartialEq)]
pub enum EvalOutcome {
    Int(i64),
    Boolean(bool),
    Text(String),
    Failed(String),
}

/// Evaluates `expr` with `evalexpr::eval` in a fresh context. The only claim
/// made is that a lone run of ASCII digits whose value fits in an `i64`
/// evaluates to that integer (evalexpr reads such a literal with
/// `i64::from_str_radix`). Nothing else is promised of the outcome:
/// `evalexpr`'s math functions use floating-point operations whose precision
/// std leaves to the platform, so the outcome is not a function of the
/// expression alone.
#[verifier::external_body]
fn eval_expression(expr: &str) -> (r: EvalOutcome)
    ensures
        expr@.len() > 0 && all_digits(expr@) && digits_value(expr@) <= i64::MAX ==> r
            == EvalOutcome::Int(digits_value(expr@) as i64),
{
    match evalexpr::eval(expr) {
        Ok(evalexpr::Value::Int(i)) => EvalOutcome::Int(i),
        Ok(evalexpr::Value::Float(x)) => EvalOutcome::Text(x.to_string()),
        Ok(evalexpr::Value::Boolean(b)) => EvalOutcome::Boolean(b),
        Ok(evalexpr::Value::String(s)) => EvalOutcome::Text(s),
        Ok(other) => EvalOutcome::Text(format!("{other:?}")),
        Err(e) => EvalOutcome::Failed(e.to_string()),
    }
}

/// The numeral of an integer, with a leading `-` when it is negative.
pub open spec fn int_decimal(i: int) -> Seq<char> {
    if i < 0 { "-"@ + decimal((-i) as nat) } else { decimal(i as nat) }
}

/// The text of an outcome: the value as `to_string` writes it, or the error.
pub open spec fn eval_view(o: EvalOutcome) -> Result<Seq<char>, Seq<char>> {
    match o {
        EvalOutcome::Int(i) => Ok(int_decimal(i as int)),
        EvalOutcome::Boolean(b) => Ok(if b { "true"@ } else { "false"@ }),
        EvalOutcome::Text(t) => Ok(t@),
        EvalOutcome::Failed(e) => Err(e@),
    }
}

fn int_text(i: i64) -> (r: String)
    ensures
        r@ == int_decimal(i as int),
{
    let mut v: Vec<char> = Vec::new();
    if i < 0 {
        v.push('-');
        let m: u64 = (-(i + 1)) as u64 + 1;
        push_decimal(&mut v, m);
        proof {
            reveal_strlit("-");
            assert(v@ =~= "-"@ + decimal((-(i as int)) as nat));
        }
    } else {
        push_decimal(&mut v, i as u64);
        assert(v@ =~= decimal(i as nat));
    }
    from_chars(v.as_slice())
}

/// The outcome written as text.
pub fn outcome_text(o: EvalOutcome) -> (r: Result<String, String>)
    ensures
        text_result(r) == eval_view(o),
{
    match o {
        EvalOutcome::Int(i) => Ok(int_text(i)),
        EvalOutcome::Boolean(b) => if b { Ok(owned("true")) } else { Ok(owned("false")) },
        EvalOutcome::Text(t) => Ok(t),
        EvalOutcome::Failed(e) => Err(e),
    }
}

/// The report of evaluating the (trimmed) expression `expr` with the outcome
/// `o`: the expression and its value, or the error handed back to the model
/// so it can correct itself; then the status line.
pub open spec fn calc_report_spec(expr: Seq<char>, o: Result<Seq<char>, Seq<char>>) -> (ContentV, Seq<char>) {
    match o {
        Ok(v) => (
            ContentV::Record(seq![("expression"@, ScalarV::Str(expr)), ("result"@, ScalarV::Str(v))]),
            "Calculated "@ + expr + " = "@ + v,
        ),
        Err(e) => (ContentV::Text("Error evaluating \""@ + expr + "\": "@ + e), "Calculation failed: "@ + e),
    }
}

/// The result of evaluating the (trimmed) expression `expr`, given what the
/// evaluator returned: the value, or the error handed back to the model so
/// it can correct itself.
pub fn calculation_report(expr: &str, outcome: Result<String, String>) -> (r: ToolReport)
    ensures
        (content_view(r.content), r.summary@) == calc_report_spec(expr@, text_result(outcome)),
{
    match outcome {
        Ok(v) => {
            let mut s: Vec<char> = Vec::new();
            push_str(&mut s, "Calculated ");
            push_str(&mut s, expr);
            push_str(&mut s, " = ");
            push_str(&mut s, v.as_str());
            let mut rec: Vec<(String, Scalar)> = Vec::new();
            rec.push(field("expression", Scalar::Str(owned(expr))));
            rec.push(field("result", Scalar::Str(v)));
            assert(record_view(rec@) =~= seq![("expression"@, ScalarV::Str(expr@)), ("result"@, ScalarV::Str(text_result(outcome)->Ok_0))]);
            ToolReport { content: ToolContent::Record(rec), summary: from_chars(s.as_slice()) }
        },
        Err(e) => {
            let mut c: Vec<char> = Vec::new();
            push_str(&mut c, "Error evaluating \"");
            push_str(&mut c, expr);
            push_str(&mut c, "\": ");
            push_str(&mut c, e.as_str());
            let mut s: Vec<char> = Vec::new();
            push_str(&mut s, "Calculation failed: ");
            push_str(&mut s, e.as_str());
            ToolReport {
                content: ToolContent::Text(from_chars(c.as_slice())),
                summary: from_chars(s.as_slice()),
            }
        },
    }
}

/// Runs `calculate`: evaluates the expression without its surrounding
/// whitespace and reports whatever the evaluator gave back for it; a lone
/// integer literal is reported as its own value.
pub fn calculate(args: &CalcArgs) -> (r: ToolReport)
    ensures
        exists|o: EvalOutcome|
            (content_view(r.content), r.summary@) == #[trigger] calc_report_spec(
                trim(args.expression@),
                eval_view(o),
            ),
        ({
            let t = trim(args.expression@);
            t.len() > 0 && all_digits(t) && digits_value(t) <= i64::MAX ==> (
                content_view(r.content),
                r.summary@,
            ) == calc_report_spec(t, Ok(decimal(digits_value(t))))
        }),
{
    let c = to_chars(args.expression.as_str());
    let t = trim_chars(c.as_slice());
    let expr = from_chars(t.as_slice());
    let outcome = eval_expression(expr.as_str());
    let ghost o = outcome;
    let text = outcome_text(outcome);
    let r = calculation_report(expr.as_str(), text);
    assert((content_view(r.content), r.summary@) == calc_report_spec(trim(args.expression@), eval_view(o)));
    r
}

/// The result of a call to a tool that does not exist.
pub fn unknown_tool_report(name: &str) -> (r: ToolReport)
    ensures
        content_view(r.content) == ContentV::Text("Error: unknown tool '"@ + name@ + "'."@),
        r.summary@ == "Unknown tool '"@ + name@ + "'"@,
{
    let mut c: Vec<char> = Vec::new();
    push_str(&mut c, "Error: unknown tool '");
    push_str(&mut c, name);
    push_str(&mut c, "'.");
    let mut s: Vec<char> = Vec::new();
    push_str(&mut s, "Unknown tool '");
    push_str(&mut s, name);
    push_str(&mut s, "'");
    ToolReport {
        content: ToolContent::Text(from_chars(c.as_slice())),
        summary: from_chars(s.as_slice()),
    }
}


/// The JSON type of a tool parameter.
#[derive(Debug, Clone, Copy, PartialEq, Eq, Structural)]
pub enum ParamKind {
    Str,
    Int,
}

/// One parameter of a tool: its name, type, description and, for an
/// integer, the inclusive range it may take.
#[derive(Debug, Clone, PartialEq)]
pub struct ParamDef {
    pub name: String,
    pub kind: ParamKind,
    pub description: String,
    pub range: Option<(u64, u64)>,
}

/// A tool advertised to the model: its name, what it does, its parameters
/// (an object schema) and which of them are required.
#[derive(Debug, Clone, PartialEq)]
pub struct ToolDef {
    pub name: String,
    pub description: String,
    pub params: Vec<ParamDef>,
    pub required: Vec<String>,
}

pub type ParamV = (Seq<char>, ParamKind, Seq<char>, Option<(u64, u64)>);

pub type ToolDefV = (Seq<char>, Seq<char>, Seq<ParamV>, Seq<Seq<char>>);

pub open spec fn param_view(p: ParamDef) -> ParamV {
    (p.name@, p.kind, p.description@, p.range)
}

pub open spec fn def_view(d: ToolDef) -> ToolDefV {
    (
        d.name@,
        d.description@,
        d.params@.map_values(|p: ParamDef| param_view(p)),
        d.required@.map_values(|s: String| s@),
    )
}

pub open spec fn search_def(default_lang: Seq<char>) -> ToolDefV {
    (
        "search_wikipedia"@,
        "Full-text search the local Wikipedia/Kiwix library. Returns a list of matching articles with their zim_name, path, and a short snippet. Use this to find articles relevant to the user's question before reading them."@,
        seq![
            ("query"@, ParamKind::Str, "The search terms."@, None),
            ("lang"@, ParamKind::Str, "3-letter language code to scope the search (default: "@ + default_lang + ")."@, None),
            ("limit"@, ParamKind::Int, "Maximum number of results (1-140)."@, Some((1u64, 140u64))),
        ],
        seq!["query"@],
    )
}

pub open spec fn read_def() -> ToolDefV {
    (
        "read_article"@,
        "Fetch the full plain-text content of a specific article, identified by the zim_name and path returned from search_wikipedia. Use this to read an article before citing it."@,
        seq![
            ("zim_name"@, ParamKind::Str, "The ZIM name of the book containing the article."@, None),
            ("path"@, ParamKind::Str, "The article path within the ZIM file (e.g. 'A/Ada_Lovelace')."@, None),
        ],
        seq!["zim_name"@, "path"@],
    )
}

pub open spec fn list_books_def() -> ToolDefV {
    (
        "list_books"@,
        "List the available books (ZIM files) in the local Kiwix library, including their name, language, and article count. Use this to discover which corpora exist and which zim_name or language to search."@,
        seq![],
        seq![],
    )
}

/// The tools offered to the model: search, read an article, list the books.
pub open spec fn tool_defs_spec(default_lang: Seq<char>) -> Seq<ToolDefV> {
    seq![search_def(default_lang), read_def(), list_books_def()]
}

fn param(name: &str, kind: ParamKind, description: String, range: Option<(u64, u64)>) -> (p: ParamDef)
    ensures
        param_view(p) == (name@, kind, description@, range),
{
    ParamDef { name: owned(name), kind, description, range }
}

fn strings(v: Vec<&str>) -> (r: Vec<String>)
    ensures
        r@.map_values(|s: String| s@) == v@.map_values(|s: &str| s@),
{
    let mut r: Vec<String> = Vec::new();
    let mut i: usize = 0;
    while i < v.len()
        invariant
            i <= v@.len(),
            r@.map_values(|s: String| s@) =~= v@.map_values(|s: &str| s@).take(i as int),
        decreases v.len() - i,
    {
        let ghost b = r@.map_values(|s: String| s@);
        r.push(owned(v[i]));
        assert(r@.map_values(|s: String| s@) =~= b.push(v@[i as int]@));
        i += 1;
    }
    r
}

/// JSON-schema tool definitions advertised to the model on every request.
pub fn tool_defs(default_lang: &str) -> (r: Vec<ToolDef>)
    ensures
        r@.map_values(|d: ToolDef| def_view(d)) == tool_defs_spec(default_lang@),
{
    let mut lang_desc: Vec<char> = Vec::new();
    push_str(&mut lang_desc, "3-letter language code to scope the search (default: ");
    push_str(&mut lang_desc, default_lang);
    push_str(&mut lang_desc, ").");
    let mut sp: Vec<ParamDef> = Vec::new();
    sp.push(param("query", ParamKind::Str, owned("The search terms."), None));
    sp.push(param("lang", ParamKind::Str, from_chars(lang_desc.as_slice()), None));
    sp.push(param("limit", ParamKind::Int, owned("Maximum number of results (1-140)."), Some((1, 140))));
    let search = ToolDef {
        name: owned("search_wikipedia"),
        description: owned(
            "Full-text search the local Wikipedia/Kiwix library. Returns a list of matching articles with their zim_name, path, and a short snippet. Use this to find articles relevant to the user's question before reading them.",
        ),
        params: sp,
        required: strings(vec!["query"]),
    };
    let mut rp: Vec<ParamDef> = Vec::new();
    rp.push(param("zim_name", ParamKind::Str, owned("The ZIM name of the book containing the article."), None));
    rp.push(param("path", ParamKind::Str, owned("The article path within the ZIM file (e.g. 'A/Ada_Lovelace')."), None));
    let read = ToolDef {
        name: owned("read_article"),
        description: owned(
            "Fetch the full plain-text content of a specific article, identified by the zim_name and path returned from search_wikipedia. Use this to read an article before citing it.",
        ),
        params: rp,
        required: strings(vec!["zim_name", "path"]),
    };
    let books = ToolDef {
        name: owned("list_books"),
        description: owned(
            "List the available books (ZIM files) in the local Kiwix library, including their name, language, and article count. Use this to discover which corpora exist and which zim_name or language to search.",
        ),
        params: Vec::new(),
        required: Vec::new(),
    };
    proof {
        assert(def_view(search) == search_def(default_lang@)) by {
            assert(search.params@.map_values(|p: ParamDef| param_view(p)) =~= search_def(default_lang@).2);
            assert(search.required@.map_values(|s: String| s@) =~= search_def(default_lang@).3);
        }
        assert(def_view(read) == read_def()) by {
            assert(read.params@.map_values(|p: ParamDef| param_view(p)) =~= read_def().2);
            assert(read.required@.map_values(|s: String| s@) =~= read_def().3);
        }
        assert(def_view(books) == list_books_def()) by {
            assert(books.params@.map_values(|p: ParamDef| param_view(p)) =~= list_books_def().2);
            assert(books.required@.map_values(|s: String| s@) =~= list_books_def().3);
        }
    }
    let mut defs: Vec<ToolDef> = Vec::new();
    defs.push(search);
    defs.push(read);
    defs.push(books);
    assert(defs@.map_values(|d: ToolDef| def_view(d)) =~= tool_defs_spec(default_lang@));
    defs
}


/// The value stored under `key` in a record: that of its first field with
/// that name.
pub open spec fn lookup(rec: Seq<(Seq<char>, ScalarV)>, key: Seq<char>) -> Option<ScalarV>
    decreases rec.len(),
{
    if rec.len() == 0 {
        None
    } else if rec[0].0 == key {
        Some(rec[0].1)
    } else {
        lookup(rec.drop_first(), key)
    }
}

/// The names of a record's fields, in order.
pub open spec fn keys(rec: Seq<(Seq<char>, ScalarV)>) -> Seq<Seq<char>> {
    rec.map_values(|f: (Seq<char>, ScalarV)| f.0)
}

/// In a search report every hit carries exactly the fields `title`,
/// `zim_name`, `path` and `snippet`, and each key holds the hit's field of
/// that name: the model's `read_article` call gets the hit's own ZIM name and
/// path.
pub proof fn law_search_items_keep_fields(results: Seq<SearchResult>, i: int)
    requires
        0 <= i < results.len(),
    ensures
        ({
            let item = results.map_values(|x: SearchResult| search_item(x))[i];
            let r = results[i];
            &&& keys(item) == seq!["title"@, "zim_name"@, "path"@, "snippet"@]
            &&& lookup(item, "title"@) == Some(ScalarV::Str(r.title@))
            &&& lookup(item, "zim_name"@) == Some(ScalarV::Str(r.zim_name@))
            &&& lookup(item, "path"@) == Some(ScalarV::Str(r.path@))
            &&& lookup(item, "snippet"@) == Some(ScalarV::Str(r.snippet@))
        }),
{
    reveal_strlit("title");
    reveal_strlit("zim_name");
    reveal_strlit("path");
    reveal_strlit("snippet");
    let item = search_item(results[i]);
    assert(keys(item) =~= seq!["title"@, "zim_name"@, "path"@, "snippet"@]);
    // The keys differ in their first letters.
    assert("title"@[0] == 't' && "zim_name"@[0] == 'z' && "path"@[0] == 'p' && "snippet"@[0] == 's');
    let d1 = item.drop_first();
    let d2 = d1.drop_first();
    let d3 = d2.drop_first();
    assert(d1[0] == item[1] && d2[0] == item[2] && d3[0] == item[3]);
    assert(results.map_values(|x: SearchResult| search_item(x))[i] == item);
    assert(lookup(item, "title"@) == Some(ScalarV::Str(results[i].title@)));
    assert(lookup(d2, "path"@) == Some(ScalarV::Str(results[i].path@)));
    assert(lookup(d1, "zim_name"@) == Some(ScalarV::Str(results[i].zim_name@)));
    assert(lookup(d1, "path"@) == lookup(d2, "path"@));
    assert(lookup(d3, "snippet"@) == Some(ScalarV::Str(results[i].snippet@)));
    assert(lookup(d2, "snippet"@) == lookup(d3, "snippet"@));
    assert(lookup(d1, "snippet"@) == lookup(d2, "snippet"@));
}

/// In a book listing every book carries exactly the fields `name`, `title`,
/// `language`, `article_count` and `description`, and each key holds the
/// book's field of that name (a missing count is `null`).
pub proof fn law_book_items_keep_fields(books: Seq<Book>, i: int)
    requires
        0 <= i < books.len(),
    ensures
        ({
            let item = books.map_values(|b: Book| book_item(b))[i];
            let b = books[i];
            &&& keys(item) == seq!["name"@, "title"@, "language"@, "article_count"@, "description"@]
            &&& lookup(item, "name"@) == Some(ScalarV::Str(b.name@))
            &&& lookup(item, "title"@) == Some(ScalarV::Str(b.title@))
            &&& lookup(item, "language"@) == Some(ScalarV::Str(b.language@))
            &&& lookup(item, "article_count"@) == Some(match b.article_count {
                Some(n) => ScalarV::Int(n),
                None => ScalarV::Null,
            })
            &&& lookup(item, "description"@) == Some(ScalarV::Str(b.description@))
        }),
{
    reveal_strlit("name");
    reveal_strlit("title");
    reveal_strlit("language");
    reveal_strlit("article_count");
    reveal_strlit("description");
    let item = book_item(books[i]);
    assert(keys(item) =~= seq!["name"@, "title"@, "language"@, "article_count"@, "description"@]);
    // The keys differ in their first letters.
    assert("name"@[0] == 'n' && "title"@[0] == 't' && "language"@[0] == 'l' && "article_count"@[0] == 'a'
        && "description"@[0] == 'd');
    let d1 = item.drop_first();
    let d2 = d1.drop_first();
    let d3 = d2.drop_first();
    let d4 = d3.drop_first();
    assert(d1[0] == item[1] && d2[0] == item[2] && d3[0] == item[3] && d4[0] == item[4]);
    assert(books.map_values(|b: Book| book_item(b))[i] == item);
    assert(lookup(d4, "description"@) == Some(ScalarV::Str(books[i].description@)));
    assert(lookup(d3, "description"@) == lookup(d4, "description"@));
    assert(lookup(d2, "description"@) == lookup(d3, "description"@));
    assert(lookup(d1, "description"@) == lookup(d2, "description"@));
    assert(lookup(d3, "article_count"@) == Some(item[3].1));
    assert(lookup(d2, "article_count"@) == lookup(d3, "article_count"@));
    assert(lookup(d1, "article_count"@) == lookup(d2, "article_count"@));
    assert(lookup(d2, "language"@) == Some(item[2].1));
    assert(lookup(d1, "language"@) == lookup(d2, "language"@));
    assert(lookup(d1, "title"@) == Some(item[1].1));
}

} // verus!
