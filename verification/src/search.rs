//! Searching the web.
use crate::headers::{
    header_contents, header_failure, header_views, insert_header, insert_headers, new_headers,
    no_headers, with_headers, MAX_HEADERS,
};
use crate::json::{add_field, json_obj, json_str, no_fields, Json, JsonV};
use crate::session::lowered;
use crate::text::{cat, cat3, holds, lemma_find_from, occurs_at};
use crate::tool::{
    cap_output, is_error_report, is_ok_report, shown_output, tool_error, tool_ok, ToolReport,
};
use reqwest::header::HeaderMap;
use vstd::prelude::*;
use vstd::string::*;

verus! {

/// What to search for.
#[derive(Debug)]
pub struct SearchParams {
    pub query: String,
    pub limit: i64,
}

/// How many results are asked for unless another number is.
pub fn default_search_limit() -> (res: i64)
    ensures
        res == 5,
{
    5
}

/// One result.
#[derive(Debug)]
pub struct SearchResult {
    pub title: String,
    pub url: String,
    pub snippet: String,
    pub date: String,
}

/// A service that searches.
pub struct SearchService {
    pub base_url: String,
    pub api_key: String,
    pub custom_headers: Vec<(String, String)>,
}

/// The tool that searches the web.
pub struct SearchWeb {
    pub description: String,
    pub base_url: String,
    pub api_key: String,
    pub custom_headers: Vec<(String, String)>,
}

/// What the first of the fixed headers that is wrong is answered with.
pub open spec fn fixed_headers_failure(
    user_agent: Seq<char>,
    api_key: Seq<char>,
    tool_call_id: Seq<char>,
) -> Option<Seq<char>> {
    match header_failure("user-agent"@, user_agent) {
        Some(e) => Some("Invalid user agent header: "@ + e),
        None => match header_failure("authorization"@, "Bearer "@ + api_key) {
            Some(e) => Some("Invalid authorization header: "@ + e),
            None => match header_failure("X-Msh-Tool-Call-Id"@, tool_call_id) {
                Some(e) => Some("Invalid tool call id header: "@ + e),
                None => None,
            },
        },
    }
}

/// The headers of a search: the fixed ones, then those of the custom ones that
/// are headers. A later one takes the place of an earlier one of the same name.
pub open spec fn search_headers(
    user_agent: Seq<char>,
    api_key: Seq<char>,
    tool_call_id: Seq<char>,
    custom: Seq<(Seq<char>, Seq<char>)>,
) -> Map<Seq<char>, Seq<char>> {
    with_headers(
        no_headers().insert(lowered("user-agent"@), user_agent).insert(
            lowered("authorization"@),
            "Bearer "@ + api_key,
        ).insert(lowered("X-Msh-Tool-Call-Id"@), tool_call_id),
        custom,
    )
}

/// A result as it is printed.
pub open spec fn result_text(r: SearchResult) -> Seq<char> {
    "Title: "@ + r.title@ + "\nDate: "@ + r.date@ + "\nURL: "@ + r.url@ + "\nSummary: "@ + r.snippet@
        + "\n\n"@
}

/// The first `n` results as they are printed, with a rule between each two.
pub open spec fn results_text(results: Seq<SearchResult>, n: int) -> Seq<char>
    decreases n,
{
    if n <= 0 {
        seq![]
    } else if n == 1 {
        result_text(results[0])
    } else {
        results_text(results, n - 1) + "---\n\n"@ + result_text(results[n - 1])
    }
}

/// What came of asking the service.
pub enum SearchReply {
    /// No client could be built.
    NoClient(String),
    /// The service did not answer.
    Unreachable(String),
    /// It answered with another status than success, written out.
    BadStatus(String),
    /// Its answer could not be read.
    Unreadable(String),
    Results(Vec<SearchResult>),
}

impl SearchWeb {
    /// The tool for a service. Without one there is no such tool.
    pub fn new(service: Option<SearchService>, description: String) -> (res: Option<SearchWeb>)
        ensures
            match service {
                None => res is None,
                Some(s) => res == Some(
                    SearchWeb {
                        description,
                        base_url: s.base_url,
                        api_key: s.api_key,
                        custom_headers: s.custom_headers,
                    },
                ),
            },
    {
        match service {
            None => None,
            Some(s) => Some(
                SearchWeb {
                    description,
                    base_url: s.base_url,
                    api_key: s.api_key,
                    custom_headers: s.custom_headers,
                },
            ),
        }
    }

    /// The tool's name.
    pub fn name(&self) -> (res: &str)
        ensures
            res@ == "SearchWeb"@,
    {
        "SearchWeb"
    }

    /// The headers of a search, or what is said where it cannot be made.
    pub fn prepare(&self, user_agent: &str, tool_call_id: Option<&str>) -> (res: Result<
        HeaderMap,
        ToolReport,
    >)
        requires
            self.custom_headers@.len() + 3 <= MAX_HEADERS,
        ensures
            if self.base_url@.len() == 0 || self.api_key@.len() == 0 {
                res matches Err(r) && is_error_report(
                    r,
                    ""@,
                    "Search service is not configured. You may want to try other methods to search."@,
                    "Search service not configured"@,
                )
            } else {
                match tool_call_id {
                    None => res matches Err(r) && is_error_report(
                        r,
                        ""@,
                        "Search service is not available without tool call context."@,
                        "Search unavailable"@,
                    ),
                    Some(id) => match fixed_headers_failure(user_agent@, self.api_key@, id@) {
                        Some(why) => res matches Err(r) && is_error_report(
                            r,
                            ""@,
                            why,
                            "Invalid header"@,
                        ),
                        None => res matches Ok(headers) && header_contents(headers)
                            == search_headers(
                            user_agent@,
                            self.api_key@,
                            id@,
                            header_views(self.custom_headers@),
                        ),
                    },
                }
            },
    {
        if self.base_url.as_str().is_empty() || self.api_key.as_str().is_empty() {
            return Err(
                tool_error(
                    "",
                    "Search service is not configured. You may want to try other methods to search.",
                    "Search service not configured",
                ),
            );
        }
        let id: &str = match tool_call_id {
            Some(id) => id,
            None => {
                return Err(
                    tool_error(
                        "",
                        "Search service is not available without tool call context.",
                        "Search unavailable",
                    ),
                );
            },
        };
        let mut headers: HeaderMap = new_headers();
        if let Err(err) = insert_header(&mut headers, "user-agent", user_agent) {
            return Err(
                tool_error("", &cat("Invalid user agent header: ", &err), "Invalid header"),
            );
        }
        let bearer: String = cat("Bearer ", &self.api_key);
        if let Err(err) = insert_header(&mut headers, "authorization", &bearer) {
            return Err(
                tool_error("", &cat("Invalid authorization header: ", &err), "Invalid header"),
            );
        }
        if let Err(err) = insert_header(&mut headers, "X-Msh-Tool-Call-Id", id) {
            return Err(
                tool_error("", &cat("Invalid tool call id header: ", &err), "Invalid header"),
            );
        }
        insert_headers(&mut headers, &self.custom_headers);
        Ok(headers)
    }

    /// The body of a search.
    pub fn body(&self, params: &SearchParams) -> (res: Json)
        ensures
            res.model() == JsonV::Obj(
                seq![
                    ("text_query"@, JsonV::Str(params.query@)),
                    ("limit"@, JsonV::Int(params.limit as int)),
                    ("timeout_seconds"@, JsonV::Int(30)),
                ],
            ),
    {
        let mut fields: Vec<(String, Json)> = no_fields();
        add_field(&mut fields, "text_query", json_str(&params.query));
        add_field(&mut fields, "limit", Json::Int(params.limit));
        add_field(&mut fields, "timeout_seconds", Json::Int(30));
        let res: Json = json_obj(fields);
        proof {
            assert(res.model()->Obj_0 =~= seq![
                ("text_query"@, JsonV::Str(params.query@)),
                ("limit"@, JsonV::Int(params.limit as int)),
                ("timeout_seconds"@, JsonV::Int(30)),
            ]);
        }
        res
    }

    /// What is said of what came of a search, in an output of at most `max_chars`
    /// characters.
    pub fn report(&self, reply: SearchReply, max_chars: usize) -> (res: ToolReport)
        ensures
            match reply {
                SearchReply::NoClient(err) => is_error_report(
                    res,
                    ""@,
                    "Failed to build HTTP client: "@ + err@,
                    "HTTP client error"@,
                ),
                SearchReply::Unreachable(err) => is_error_report(
                    res,
                    ""@,
                    "Failed to search. Error: "@ + err@
                        + ". This may indicates that the search service is currently unavailable."@,
                    "Failed to search"@,
                ),
                SearchReply::BadStatus(status) => is_error_report(
                    res,
                    ""@,
                    "Failed to search. Status: "@ + status@
                        + ". This may indicates that the search service is currently unavailable."@,
                    "Failed to search"@,
                ),
                SearchReply::Unreadable(err) => is_error_report(
                    res,
                    ""@,
                    "Failed to parse search results. Error: "@ + err@
                        + ". This may indicates that the search service is currently unavailable."@,
                    "Failed to parse search results"@,
                ),
                SearchReply::Results(results) => is_ok_report(
                    res,
                    shown_output(results_text(results@, results@.len() as int), max_chars as nat),
                    ""@,
                    ""@,
                ),
            },
    {
        match reply {
            SearchReply::NoClient(err) => tool_error(
                "",
                &cat("Failed to build HTTP client: ", &err),
                "HTTP client error",
            ),
            SearchReply::Unreachable(err) => tool_error(
                "",
                &cat3(
                    "Failed to search. Error: ",
                    &err,
                    ". This may indicates that the search service is currently unavailable.",
                ),
                "Failed to search",
            ),
            SearchReply::BadStatus(status) => tool_error(
                "",
                &cat3(
                    "Failed to search. Status: ",
                    &status,
                    ". This may indicates that the search service is currently unavailable.",
                ),
                "Failed to search",
            ),
            SearchReply::Unreadable(err) => tool_error(
                "",
                &cat3(
                    "Failed to parse search results. Error: ",
                    &err,
                    ". This may indicates that the search service is currently unavailable.",
                ),
                "Failed to parse search results",
            ),
            SearchReply::Results(results) => {
                let mut out: String = String::new();
                let mut i: usize = 0;
                proof {
                    assert(out@ =~= seq![]);
                }
                while i < results.len()
                    invariant
                        i <= results@.len(),
                        out@ == results_text(results@, i as int),
                    decreases results@.len() - i,
                {
                    let ghost before = out@;
                    if i > 0 {
                        out.append("---\n\n");
                    }
                    let text: String = write_result(&results[i]);
                    out.append(&text);
                    proof {
                        if i == 0 {
                            assert(before =~= seq![]);
                            assert(out@ =~= result_text(results@[0]));
                        }
                    }
                    i += 1;
                }
                tool_ok(&cap_output(&out, max_chars), "", "")
            },
        }
    }
}

fn write_result(r: &SearchResult) -> (res: String)
    ensures
        res@ == result_text(*r),
{
    let mut res: String = cat3("Title: ", &r.title, "\nDate: ");
    res.append(&r.date);
    res.append("\nURL: ");
    res.append(&r.url);
    res.append("\nSummary: ");
    res.append(&r.snippet);
    res.append("\n\n");
    res
}

/// A search asks for what was typed, for so many results, and for an answer within half a
/// minute.
pub proof fn law_what_a_web_search_asks_for(tool: SearchWeb, params: SearchParams, res: Json)
    requires
        call_ensures(SearchWeb::body, (&tool, &params), res),
    ensures
        res.model().str_at("text_query"@) == Some(params.query@),
        res.model().int_at("limit"@) == Some(params.limit as int),
        res.model().int_at("timeout_seconds"@) == Some(30int),
{
    reveal_strlit("text_query");
    reveal_strlit("limit");
    reveal_strlit("timeout_seconds");
    assert("text_query"@.len() == 10 && "limit"@.len() == 5 && "timeout_seconds"@.len() == 15);
    reveal_with_fuel(crate::json::field_index, 4);
}

/// A search is a success exactly where results came, and shows every one of them, in
/// order, with its title, date, address and summary, as far as the output may go; any
/// other reply is an error that says what went wrong.
pub proof fn law_what_a_web_search_shows(
    tool: SearchWeb,
    reply: SearchReply,
    max_chars: usize,
    res: ToolReport,
    i: int,
)
    requires
        call_ensures(SearchWeb::report, (&tool, reply, max_chars), res),
    ensures
        !res.is_error <==> reply is Results,
        reply matches SearchReply::Results(results) ==> {
            let shown = "Title: "@ + results@[i].title@ + "\nDate: "@ + results@[i].date@
                + "\nURL: "@ + results@[i].url@ + "\nSummary: "@ + results@[i].snippet@;
            &&& results@.len() == 0 ==> res.output@.len() == 0
            &&& 0 <= i < results@.len() && res.output@.len() < max_chars ==> holds(
                res.output@,
                shown,
            )
        },
        reply matches SearchReply::Unreachable(err) ==> holds(res.message@, err@),
        reply matches SearchReply::BadStatus(status) ==> holds(res.message@, status@),
        reply matches SearchReply::Unreadable(err) ==> holds(res.message@, err@),
        reply matches SearchReply::NoClient(err) ==> holds(res.message@, err@),
{
    match reply {
        SearchReply::Results(results) => {
            let n = results@.len() as int;
            if 0 <= i < n && res.output@.len() < max_chars {
                lemma_result_is_shown(results@, n, i);
            }
        },
        SearchReply::Unreachable(err) => {
            lemma_holds_within(
                "Failed to search. Error: "@,
                err@,
                ". This may indicates that the search service is currently unavailable."@,
            );
        },
        SearchReply::BadStatus(status) => {
            lemma_holds_within(
                "Failed to search. Status: "@,
                status@,
                ". This may indicates that the search service is currently unavailable."@,
            );
        },
        SearchReply::Unreadable(err) => {
            lemma_holds_within(
                "Failed to parse search results. Error: "@,
                err@,
                ". This may indicates that the search service is currently unavailable."@,
            );
        },
        SearchReply::NoClient(err) => {
            lemma_holds_within("Failed to build HTTP client: "@, err@, seq![]);
            assert("Failed to build HTTP client: "@ + err@ + seq![]
                =~= "Failed to build HTTP client: "@ + err@);
        },
    }
}

proof fn lemma_holds_within(a: Seq<char>, s: Seq<char>, b: Seq<char>)
    ensures
        holds(a + s + b, s),
{
    let all = a + s + b;
    lemma_find_from(all, s, 0);
    assert(all.subrange(a.len() as int, a.len() as int + s.len()) =~= s);
    assert(occurs_at(all, s, a.len() as int));
}

proof fn lemma_result_is_shown(results: Seq<SearchResult>, n: int, i: int)
    requires
        0 <= i < n <= results.len(),
    ensures
        ({
            let shown = "Title: "@ + results[i].title@ + "\nDate: "@ + results[i].date@ + "\nURL: "@
                + results[i].url@ + "\nSummary: "@ + results[i].snippet@;
            exists|a: Seq<char>, b: Seq<char>|
                results_text(results, n) == #[trigger] (a + shown + b)
        }),
        ({
            let shown = "Title: "@ + results[i].title@ + "\nDate: "@ + results[i].date@ + "\nURL: "@
                + results[i].url@ + "\nSummary: "@ + results[i].snippet@;
            holds(results_text(results, n), shown)
        }),
    decreases n,
{
    let shown = "Title: "@ + results[i].title@ + "\nDate: "@ + results[i].date@ + "\nURL: "@
        + results[i].url@ + "\nSummary: "@ + results[i].snippet@;
    let all = results_text(results, n);
    if i == n - 1 {
        let a = if n == 1 {
            seq![]
        } else {
            results_text(results, n - 1) + "---\n\n"@
        };
        assert(all =~= a + shown + "\n\n"@);
        lemma_holds_within(a, shown, "\n\n"@);
    } else {
        lemma_result_is_shown(results, n - 1, i);
        let (a, b) = choose|a: Seq<char>, b: Seq<char>|
            results_text(results, n - 1) == #[trigger] (a + shown + b);
        let rest = b + "---\n\n"@ + result_text(results[n - 1]);
        assert(all =~= a + shown + rest);
        lemma_holds_within(a, shown, rest);
    }
}

/// A search goes out exactly where the service is configured, a tool call asks for it and
/// the headers are valid; without headers of the service's own it carries the
/// caller's name, the key behind `Bearer ` and the call's id.
pub proof fn law_what_a_web_search_goes_out_with(
    tool: SearchWeb,
    user_agent: &str,
    tool_call_id: Option<&str>,
    res: Result<HeaderMap, ToolReport>,
)
    requires
        call_ensures(SearchWeb::prepare, (&tool, user_agent, tool_call_id), res),
    ensures
        res matches Err(r) ==> r.is_error,
        tool.base_url@.len() == 0 || tool.api_key@.len() == 0 || tool_call_id is None ==> res is Err,
        tool.base_url@.len() > 0 && tool.api_key@.len() > 0 && tool_call_id is Some
            && header_failure("user-agent"@, user_agent@) is None && header_failure(
            "authorization"@,
            "Bearer "@ + tool.api_key@,
        ) is None && header_failure("X-Msh-Tool-Call-Id"@, tool_call_id->0@) is None ==> res is Ok,
        res matches Ok(headers) ==> tool.custom_headers@.len() == 0 ==> {
            let held = header_contents(headers);
            &&& held.contains_key("authorization"@) && held["authorization"@] == "Bearer "@
                + tool.api_key@
            &&& held.contains_key("user-agent"@) && held["user-agent"@] == user_agent@
            &&& held.contains_key("x-msh-tool-call-id"@) && held["x-msh-tool-call-id"@]
                == tool_call_id->0@
        },
{
    reveal_strlit("user-agent");
    reveal_strlit("authorization");
    reveal_strlit("X-Msh-Tool-Call-Id");
    reveal_strlit("x-msh-tool-call-id");
    assert(lowered("user-agent"@) =~= "user-agent"@);
    assert(lowered("authorization"@) =~= "authorization"@);
    assert(lowered("X-Msh-Tool-Call-Id"@) =~= "x-msh-tool-call-id"@);
    assert("user-agent"@.len() == 10 && "authorization"@.len() == 13 && "x-msh-tool-call-id"@.len()
        == 18);
    if tool.custom_headers@.len() == 0 {
        assert(header_views(tool.custom_headers@).len() == 0);
    }
}

} // verus!
