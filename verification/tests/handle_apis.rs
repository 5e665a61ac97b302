use blog_listing::dynamodb::{AttributeValue, AttributeValueItem, JsonMember, JsonValue};
use blog_listing::error::{Error, Param};
use blog_listing::handle_apis::{
    carry_out, get_all_tags, get_post, get_tag_indexes, get_top_indexes, lambda_handler, search_post,
};
use blog_listing::pagination::PageRequest;
use blog_listing::plan::{parse_page_number, parse_page_request, plan, plan_search, Plan, Query};
use blog_listing::responses::{error_response, Body, Response};
use blog_listing::routing::{endpoint_of, not_found_response, route, Route, Routed};
use blog_listing::store::Filter;

fn st(text: &str) -> AttributeValue {
    AttributeValue::S(text.to_string())
}

fn row(fields: Vec<(&str, AttributeValue)>) -> AttributeValueItem {
    let mut item = AttributeValueItem::new();
    for (name, value) in fields {
        item.insert(name.to_string(), value);
    }
    item
}

fn summary_row(slag: &str, created_at: &str) -> AttributeValueItem {
    row(vec![
        ("slag", st(slag)),
        ("title", st(&format!("Title {}", slag))),
        ("created_at", st(created_at)),
        ("updated_at", st(created_at)),
    ])
}

fn full_row(slag: &str, created_at: &str, tags: &[(&str, &str)], publish: Option<bool>) -> AttributeValueItem {
    let mut item = summary_row(slag, created_at);
    item.insert("search_title".to_string(), st(&format!("title {}", slag)));
    item.insert("tags".to_string(), AttributeValue::L(tags.iter().map(|t| st(t.0)).collect()));
    item.insert("search_tags".to_string(), AttributeValue::L(tags.iter().map(|t| st(t.1)).collect()));
    if let Some(flag) = publish {
        item.insert("publish".to_string(), AttributeValue::Bool(flag));
    }
    item
}

fn member(name: &str, value: JsonValue) -> JsonMember {
    JsonMember { name: name.to_string(), value }
}

fn js(text: &str) -> JsonValue {
    JsonValue::String(text.to_string())
}

fn summary_json(slag: &str, created_at: &str) -> JsonValue {
    JsonValue::Object(vec![
        member("slag", js(slag)),
        member("title", js(&format!("Title {}", slag))),
        member("created_at", js(created_at)),
        member("updated_at", js(created_at)),
    ])
}

fn listing(items: Vec<JsonValue>, count: u64) -> Response {
    Response {
        status: 200,
        body: Body::Json(JsonValue::Object(vec![
            member("items", JsonValue::Array(items)),
            member("count", JsonValue::Number(count)),
        ])),
    }
}

fn ok_json(json: JsonValue) -> Response {
    Response { status: 200, body: Body::Json(json) }
}

fn told(status: u16, text: &str) -> Response {
    Response { status, body: Body::Text(text.to_string()) }
}

fn asked(page: Option<&str>, slag: Option<&str>, tag: Option<&str>, query: Option<&str>) -> Query {
    Query {
        page: page.map(|v| v.to_string()),
        slag: slag.map(|v| v.to_string()),
        tag: tag.map(|v| v.to_string()),
        query: query.map(|v| v.to_string()),
    }
}

fn fifteen_posts() -> Vec<AttributeValueItem> {
    (1..=15).map(|n| full_row(&format!("post-{:02}", n), &format!("2024-01-{:02}", n), &[], None)).collect()
}

#[test]
fn the_operation_is_named_behind_the_last_slash() {
    assert_eq!(endpoint_of("/prod/get-post"), Some("/get-post".to_string()));
    assert_eq!(endpoint_of("/get-post"), Some("/get-post".to_string()));
    assert_eq!(endpoint_of("/a/b/"), Some("/".to_string()));
    assert_eq!(endpoint_of("get-post"), None);
    assert_eq!(endpoint_of(""), None);
}

#[test]
fn every_operation_is_found_by_its_path() {
    assert_eq!(route("/get-top-indexes", "GET"), Routed::Endpoint(Route::TopIndexes));
    assert_eq!(route("/get-post", "GET"), Routed::Endpoint(Route::Post));
    assert_eq!(route("/get-all-tags", "GET"), Routed::Endpoint(Route::AllTags));
    assert_eq!(route("/get-tag-indexes", "GET"), Routed::Endpoint(Route::TagIndexes));
    assert_eq!(route("/search-post", "GET"), Routed::Endpoint(Route::SearchPost));
}

#[test]
fn other_methods_and_paths_lead_nowhere() {
    assert_eq!(route("/get-post", "POST"), Routed::NoMethod);
    assert_eq!(route("/get-post", "get"), Routed::NoMethod);
    assert_eq!(route("/get-posts", "GET"), Routed::NoEndpoint);
    assert_eq!(route("get-post", "GET"), Routed::NoEndpoint);
    assert_eq!(route("/", "POST"), Routed::NoEndpoint);
}

#[test]
fn requests_that_lead_nowhere_are_told_so() {
    assert_eq!(not_found_response("/get-post", true), told(404, "No method found for `/get-post` path."));
    assert_eq!(not_found_response("/nope", false), told(404, "No API endpoint path found."));
}

#[test]
fn failures_name_the_parameter() {
    assert_eq!(error_response(Error::MissingParameter(Param::Page)), told(400, "`page` query param is not found."));
    assert_eq!(error_response(Error::MissingParameter(Param::Slag)), told(400, "`slag` query param is not found."));
    assert_eq!(error_response(Error::MissingParameter(Param::Tag)), told(400, "`tag` query param is not found."));
    assert_eq!(error_response(Error::MissingParameter(Param::Query)), told(400, "`query` query param is not found."));
    assert_eq!(error_response(Error::InvalidPage), told(400, "`page` query param is not a page number."));
    assert_eq!(error_response(Error::MissingField).status, 500);
    assert_eq!(error_response(Error::TagListsDiffer).status, 500);
    assert_eq!(error_response(Error::UnsupportedAttribute).status, 500);
}

#[test]
fn pages_are_positive_numbers_or_all() {
    assert_eq!(parse_page_request("all"), Some(PageRequest::All));
    assert_eq!(parse_page_request("1"), Some(PageRequest::Number(1)));
    assert_eq!(parse_page_request("27"), Some(PageRequest::Number(27)));
    assert_eq!(parse_page_request("0"), None);
    assert_eq!(parse_page_request("-1"), None);
    assert_eq!(parse_page_request("ALL"), None);
    assert_eq!(parse_page_request("two"), None);
    assert_eq!(parse_page_request(""), None);
    assert_eq!(parse_page_number("3"), Some(3));
    assert_eq!(parse_page_number("all"), None);
    assert_eq!(parse_page_number("0"), None);
}

#[test]
fn plans_need_their_parameters() {
    let nothing = asked(None, None, None, None);
    assert_eq!(plan(Route::TopIndexes, &nothing), Err(Error::MissingParameter(Param::Page)));
    assert_eq!(plan(Route::Post, &nothing), Err(Error::MissingParameter(Param::Slag)));
    assert_eq!(plan(Route::AllTags, &nothing), Ok(Plan::AllTags));
    assert_eq!(plan(Route::TagIndexes, &nothing), Err(Error::MissingParameter(Param::Page)));
    assert_eq!(plan(Route::TagIndexes, &asked(Some("1"), None, None, None)), Err(Error::MissingParameter(Param::Tag)));
    assert_eq!(plan(Route::TagIndexes, &asked(None, None, Some("rust"), None)), Err(Error::MissingParameter(Param::Page)));
    assert_eq!(plan(Route::SearchPost, &nothing), Err(Error::MissingParameter(Param::Query)));
}

#[test]
fn plans_refuse_pages_that_are_none() {
    assert_eq!(plan(Route::TopIndexes, &asked(Some("zero"), None, None, None)), Err(Error::InvalidPage));
    assert_eq!(plan(Route::TopIndexes, &asked(Some("0"), None, None, None)), Err(Error::InvalidPage));
    assert_eq!(plan(Route::TagIndexes, &asked(Some("all"), None, Some("rust"), None)), Err(Error::InvalidPage));
}

#[test]
fn plans_carry_what_was_asked() {
    assert_eq!(
        plan(Route::TopIndexes, &asked(Some("all"), None, None, None)),
        Ok(Plan::TopIndexes { page: PageRequest::All })
    );
    assert_eq!(
        plan(Route::TopIndexes, &asked(Some("2"), None, None, None)),
        Ok(Plan::TopIndexes { page: PageRequest::Number(2) })
    );
    assert_eq!(
        plan(Route::Post, &asked(None, Some("Hello World"), None, None)),
        Ok(Plan::Post { slag: "Hello World".to_string() })
    );
}

#[test]
fn the_tag_is_percent_encoded() {
    let tagged = |tag: &str| plan(Route::TagIndexes, &asked(Some("1"), None, Some(tag), None));
    assert_eq!(tagged("rust"), Ok(Plan::TagIndexes { number: 1, search_tag: "rust".to_string() }));
    assert_eq!(tagged("日本"), Ok(Plan::TagIndexes { number: 1, search_tag: "%E6%97%A5%E6%9C%AC".to_string() }));
    assert_eq!(tagged("a b/c?"), Ok(Plan::TagIndexes { number: 1, search_tag: "a b/c?".to_string() }));
    assert_eq!(tagged("tab\there\u{7f}"), Ok(Plan::TagIndexes { number: 1, search_tag: "tab%09here%7F".to_string() }));
    assert_eq!(tagged("é~"), Ok(Plan::TagIndexes { number: 1, search_tag: "%C3%A9~".to_string() }));
}

#[test]
fn a_search_scans_once_for_each_term() {
    let planned = plan(Route::SearchPost, &asked(None, None, None, Some("Verified  RUST code")));
    let matching = |term: &str| Filter::Matching {
        query: "verified  rust code".to_string(),
        term: term.to_string(),
        joined: "verified-rust-code".to_string(),
    };
    assert_eq!(planned, Ok(Plan::SearchPost { filters: vec![matching("verified"), matching("rust"), matching("code")] }));
    assert_eq!(plan(Route::SearchPost, &asked(None, None, None, Some("  "))), Ok(Plan::SearchPost { filters: vec![] }));
    assert_eq!(plan_search("a a").len(), 2);
}

#[test]
fn the_query_is_lowered_before_it_is_split() {
    let planned = plan(Route::SearchPost, &asked(None, None, None, Some("ÉCOLE Straße")));
    let matching = |term: &str| Filter::Matching {
        query: "école straße".to_string(),
        term: term.to_string(),
        joined: "école-straße".to_string(),
    };
    assert_eq!(planned, Ok(Plan::SearchPost { filters: vec![matching("école"), matching("straße")] }));
}

#[test]
fn the_index_is_sorted_and_counted() {
    let items = vec![summary_row("old", "2021-01-01"), summary_row("new", "2024-01-01"), summary_row("mid", "2022-01-01")];
    assert_eq!(
        get_top_indexes(PageRequest::All, &items),
        Ok(listing(
            vec![summary_json("new", "2024-01-01"), summary_json("mid", "2022-01-01"), summary_json("old", "2021-01-01")],
            3
        ))
    );
    assert_eq!(get_top_indexes(PageRequest::All, &Vec::new()), Ok(listing(vec![], 0)));
}

#[test]
fn the_index_reports_the_count_before_paging() {
    let items: Vec<AttributeValueItem> =
        (1..=15).map(|n| summary_row(&format!("p{:02}", n), &format!("2024-01-{:02}", n))).collect();
    assert_eq!(
        get_top_indexes(PageRequest::Number(2), &items),
        Ok(listing(vec![summary_json("p02", "2024-01-02"), summary_json("p01", "2024-01-01")], 15))
    );
    assert_eq!(
        get_tag_indexes(2, &items),
        Ok(listing(vec![summary_json("p02", "2024-01-02"), summary_json("p01", "2024-01-01")], 15))
    );
    assert_eq!(get_tag_indexes(99, &items), get_tag_indexes(2, &items));
}

#[test]
fn listings_refuse_records_that_are_no_summaries() {
    let broken = row(vec![("slag", st("a")), ("title", st("A")), ("created_at", st("2024"))]);
    assert_eq!(get_top_indexes(PageRequest::All, &vec![summary_row("b", "2024"), broken]), Err(Error::MissingField));
    let wrong_kind = row(vec![
        ("slag", st("a")),
        ("title", st("A")),
        ("created_at", AttributeValue::N("2024".to_string())),
        ("updated_at", st("2024")),
    ]);
    assert_eq!(get_tag_indexes(1, &vec![wrong_kind]), Err(Error::MissingField));
    assert_eq!(get_tag_indexes(0, &Vec::new()), Err(Error::InvalidPage));
}

#[test]
fn a_post_is_answered_as_it_is_stored() {
    let item = full_row("hello", "2024-01-01", &[("Rust", "rust")], Some(false));
    let answer = get_post(Some(&item)).unwrap();
    assert_eq!(answer, ok_json(item.serialize().unwrap()));
    match answer.body {
        Body::Json(JsonValue::Object(members)) => {
            assert_eq!(members[0], member("slag", js("hello")));
            assert_eq!(members[5], member("tags", JsonValue::Array(vec![js("Rust")])));
            assert_eq!(members[7], member("publish", JsonValue::Bool(false)));
        }
        _ => panic!("an object was expected"),
    }
}

#[test]
fn an_unknown_post_is_answered_with_null() {
    assert_eq!(get_post(None), Ok(ok_json(JsonValue::Null)));
}

#[test]
fn a_post_with_an_unsupported_attribute_is_refused() {
    let item = row(vec![("slag", st("a")), ("blob", AttributeValue::Unsupported)]);
    assert_eq!(get_post(Some(&item)), Err(Error::UnsupportedAttribute));
}

#[test]
fn the_catalog_is_answered_as_an_array() {
    let items = vec![
        full_row("a", "2024", &[("Rust", "rust"), ("AWS", "aws")], None),
        full_row("b", "2024", &[("Rust", "other")], None),
    ];
    let entry = |tag: &str, search_tag: &str| {
        JsonValue::Object(vec![member("tag", js(tag)), member("search_tag", js(search_tag))])
    };
    assert_eq!(get_all_tags(&items), Ok(ok_json(JsonValue::Array(vec![entry("AWS", "aws"), entry("Rust", "rust")]))));
    assert_eq!(get_all_tags(&Vec::new()), Ok(ok_json(JsonValue::Array(vec![]))));
}

#[test]
fn the_catalog_refuses_broken_records() {
    assert_eq!(get_all_tags(&vec![summary_row("a", "2024")]), Err(Error::MissingField));
    let uneven = row(vec![
        ("tags", AttributeValue::L(vec![st("a"), st("b")])),
        ("search_tags", AttributeValue::L(vec![st("a")])),
    ]);
    assert_eq!(get_all_tags(&vec![uneven]), Err(Error::TagListsDiffer));
}

#[test]
fn a_search_answers_what_only_the_first_term_found() {
    let matches = vec![
        vec![summary_row("A", "2024-01-03"), summary_row("B", "2024-01-01"), summary_row("C", "2024-01-02")],
        vec![summary_row("B", "2024-01-01")],
    ];
    assert_eq!(
        search_post(&matches),
        Ok(ok_json(JsonValue::Array(vec![summary_json("A", "2024-01-03"), summary_json("C", "2024-01-02")])))
    );
    assert_eq!(search_post(&Vec::new()), Ok(ok_json(JsonValue::Array(vec![]))));
    let broken = vec![vec![summary_row("A", "2024")], vec![row(vec![("slag", st("A"))])]];
    assert_eq!(search_post(&broken), Err(Error::MissingField));
}

#[test]
fn second_page_of_fifteen_posts_holds_two() {
    let mut table = fifteen_posts();
    table.push(full_row("hidden", "2025-01-01", &[], Some(false)));
    let answer = lambda_handler(&table, "/prod/get-top-indexes", "GET", &asked(Some("2"), None, None, None));
    assert_eq!(
        answer,
        Ok(listing(vec![summary_json("post-02", "2024-01-02"), summary_json("post-01", "2024-01-01")], 15))
    );
}

#[test]
fn whole_index_holds_every_public_post() {
    let answer = lambda_handler(&fifteen_posts(), "/get-top-indexes", "GET", &asked(Some("all"), None, None, None));
    match answer.unwrap().body {
        Body::Json(JsonValue::Object(members)) => {
            assert_eq!(members[1], member("count", JsonValue::Number(15)));
            match &members[0].value {
                JsonValue::Array(items) => {
                    assert_eq!(items.len(), 15);
                    assert_eq!(items[0], summary_json("post-15", "2024-01-15"));
                }
                _ => panic!("an array was expected"),
            }
        }
        _ => panic!("an object was expected"),
    }
}

#[test]
fn an_unknown_slag_is_no_error() {
    let answer = lambda_handler(&fifteen_posts(), "/get-post", "GET", &asked(None, Some("nowhere"), None, None));
    assert_eq!(answer, Ok(ok_json(JsonValue::Null)));
}

#[test]
fn a_hidden_post_is_listed_nowhere_but_can_be_looked_up() {
    let table = vec![
        full_row("open", "2024-01-01", &[("Rust", "rust")], None),
        full_row("hidden", "2024-02-01", &[("Secret", "secret"), ("Rust", "rust")], Some(false)),
        full_row("shown", "2024-03-01", &[("Go", "go")], Some(true)),
    ];
    let get = |path: &str, query: Query| lambda_handler(&table, path, "GET", &query);
    assert_eq!(
        get("/get-top-indexes", asked(Some("all"), None, None, None)),
        Ok(listing(vec![summary_json("shown", "2024-03-01"), summary_json("open", "2024-01-01")], 2))
    );
    assert_eq!(
        get("/get-tag-indexes", asked(Some("1"), None, Some("rust"), None)),
        Ok(listing(vec![summary_json("open", "2024-01-01")], 1))
    );
    assert_eq!(
        get("/get-tag-indexes", asked(Some("1"), None, Some("secret"), None)),
        Ok(listing(vec![], 0))
    );
    let entry = |tag: &str, search_tag: &str| {
        JsonValue::Object(vec![member("tag", js(tag)), member("search_tag", js(search_tag))])
    };
    assert_eq!(
        get("/get-all-tags", asked(None, None, None, None)),
        Ok(ok_json(JsonValue::Array(vec![entry("Go", "go"), entry("Rust", "rust")])))
    );
    assert_eq!(
        get("/search-post", asked(None, None, None, Some("hidden"))),
        Ok(ok_json(JsonValue::Array(vec![])))
    );
    assert_eq!(
        get("/search-post", asked(None, None, None, Some("TITLE"))),
        Ok(ok_json(JsonValue::Array(vec![summary_json("open", "2024-01-01"), summary_json("shown", "2024-03-01")])))
    );
    let looked_up = get("/get-post", asked(None, Some("hidden"), None, None)).unwrap();
    assert_eq!(looked_up, ok_json(table[1].serialize().unwrap()));
}

#[test]
fn a_post_found_for_two_terms_is_not_in_the_answer() {
    let table = vec![
        full_row("rust-only", "2024-01-01", &[("Rust", "rust")], None),
        full_row("both", "2024-01-02", &[("Rust", "rust"), ("AWS", "aws")], None),
        full_row("aws-only", "2024-01-03", &[("AWS", "aws")], None),
    ];
    let answer = lambda_handler(&table, "/search-post", "GET", &asked(None, None, None, Some("Rust AWS")));
    assert_eq!(answer, Ok(ok_json(JsonValue::Array(vec![summary_json("rust-only", "2024-01-01")]))));
}

#[test]
fn requests_are_refused_before_anything_is_read() {
    let table = vec![row(vec![("slag", st("broken"))])];
    let get = |path: &str, method: &str, query: Query| lambda_handler(&table, path, method, &query);
    assert_eq!(get("/get-top-indexes", "GET", asked(None, None, None, None)), Ok(told(400, "`page` query param is not found.")));
    assert_eq!(get("/get-top-indexes", "GET", asked(Some("x"), None, None, None)), Ok(told(400, "`page` query param is not a page number.")));
    assert_eq!(get("/get-post", "GET", asked(None, None, None, None)), Ok(told(400, "`slag` query param is not found.")));
    assert_eq!(get("/get-tag-indexes", "GET", asked(Some("1"), None, None, None)), Ok(told(400, "`tag` query param is not found.")));
    assert_eq!(get("/search-post", "GET", asked(None, None, None, None)), Ok(told(400, "`query` query param is not found.")));
    assert_eq!(get("/get-post", "DELETE", asked(None, None, None, None)), Ok(told(404, "No method found for `/get-post` path.")));
    assert_eq!(get("/v1/unknown", "GET", asked(None, None, None, None)), Ok(told(404, "No API endpoint path found.")));
    assert_eq!(get("/get-top-indexes", "GET", asked(Some("1"), None, None, None)), Err(Error::MissingField));
}

#[test]
fn a_plan_is_carried_out_on_the_table() {
    let table = fifteen_posts();
    assert_eq!(
        carry_out(&table, &Plan::Post { slag: "post-03".to_string() }),
        Ok(ok_json(table[2].serialize().unwrap()))
    );
    assert_eq!(
        carry_out(&table, &Plan::TagIndexes { number: 1, search_tag: "none".to_string() }),
        Ok(listing(vec![], 0))
    );
}
