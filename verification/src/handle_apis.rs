//! The five operations of the post index: what each answers to what was
//! read from the store, and a handler that serves requests from a table
//! held in memory.

use crate::dynamodb::{
    all_renderable, json_of_fields, string_member, strings_under, text_member, AttributeValueItem,
    Fields, JsonMember, JsonModel, JsonValue, ListToVec, MemberModel,
};
use crate::error::Error;
use crate::pagination::{paginate, requested_slice, PageRequest};
use crate::plan::{filters_of, plan, planned, Plan, PlanModel, Query, QueryModel};
use crate::post::{
    is_summary, sort_by_created_at, summaries_of, summary_in, summary_json, PostSummary, SummaryModel,
};
use crate::responses::{error_response, failure, ok_json, Response, ResponseModel, _200};
use crate::routing::{endpoint_of, endpoint_path, not_found, not_found_response, route, routed, Routed};
use crate::search::{combine_matches, combined};
use crate::sorting::is_stable_sort_of;
use crate::store::{
    get_item, looked_up, projection_names, records_of, scan, scanned, Filter, FilterModel, Projection,
};
use crate::tags::{
    aggregate_tags, is_catalog_of, lists_match, pairs_of, traversal, SearchResult, TableTagData, TagLists,
    TagPair,
};
use vstd::prelude::*;
use vstd::string::*;

verus! {

/// Each record holds a post summary.
pub open spec fn all_summaries(records: Seq<Fields>) -> bool {
    forall|i: int| 0 <= i < records.len() ==> is_summary(#[trigger] records[i])
}

/// The summaries that the records hold.
pub open spec fn summaries_in(records: Seq<Fields>) -> Seq<SummaryModel> {
    Seq::new(records.len(), |i: int| summary_in(records[i]))
}

/// Reads the summary out of each record. One record that does not hold a
/// summary makes the whole input invalid.
pub fn read_summaries(records: &Vec<AttributeValueItem>) -> (result: Result<Vec<PostSummary>, Error>)
    ensures
        match result {
            Ok(posts) => all_summaries(records_of(records@)) && summaries_of(posts@) == summaries_in(
                records_of(records@),
            ),
            Err(e) => !all_summaries(records_of(records@)) && e == Error::MissingField,
        },
{
    let mut posts: Vec<PostSummary> = Vec::new();
    let mut i: usize = 0;
    while i < records.len()
        invariant
            i <= records@.len(),
            posts@.len() == i,
            forall|j: int| 0 <= j < i ==> is_summary(#[trigger] records_of(records@)[j]),
            forall|j: int| 0 <= j < i ==> (#[trigger] posts@[j])@ == summary_in(records@[j]@),
        decreases records@.len() - i,
    {
        match PostSummary::from_record(&records[i]) {
            Ok(post) => posts.push(post),
            Err(e) => {
                assert(!is_summary(records_of(records@)[i as int]));
                return Err(e);
            },
        }
        i += 1;
    }
    assert(summaries_of(posts@) =~= summaries_in(records_of(records@)));
    Ok(posts)
}

/// The summaries as a JSON array of objects.
pub open spec fn summaries_json(posts: Seq<SummaryModel>) -> JsonModel {
    JsonModel::Array(Seq::new(posts.len(), |i: int| summary_json(posts[i])))
}

/// The body of a listing: the items of the page, and the number of all
/// items of the listing.
pub open spec fn listing_json(items: Seq<SummaryModel>, count: int) -> JsonModel {
    JsonModel::Object(
        seq![
            MemberModel { name: "items"@, value: summaries_json(items) },
            MemberModel { name: "count"@, value: JsonModel::Number(count) },
        ],
    )
}

/// Renders summaries as a JSON array.
pub fn render_summaries(posts: &Vec<PostSummary>) -> (json: JsonValue)
    ensures
        json@ == summaries_json(summaries_of(posts@)),
{
    let mut items: Vec<JsonValue> = Vec::new();
    let mut i: usize = 0;
    while i < posts.len()
        invariant
            i <= posts@.len(),
            items@.len() == i,
            forall|j: int| 0 <= j < i ==> (#[trigger] items@[j])@ == summary_json(posts@[j]@),
        decreases posts@.len() - i,
    {
        items.push(posts[i].to_json());
        i += 1;
    }
    let json = JsonValue::Array(items);
    assert(json@->Array_0 =~= summaries_json(summaries_of(posts@))->Array_0);
    json
}

/// `response` is the listing of `posts` at `page`: the posts from the newest
/// to the oldest, those of one moment in the order in which they came, cut to
/// the page, together with the number of all posts.
pub open spec fn is_listing(posts: Seq<PostSummary>, page: PageRequest, response: ResponseModel) -> bool {
    exists|sorted: Seq<PostSummary>| #[trigger]
        is_stable_sort_of(sorted, posts, true) && response == ok_json(
            listing_json(summaries_of(requested_slice(sorted, page)), posts.len() as int),
        )
}

/// Lists posts: sorts them from the newest to the oldest, cuts the page out
/// and reports it with the number of all posts. Page 0 is refused.
pub fn list_posts(posts: Vec<PostSummary>, page: PageRequest) -> (result: Result<Response, Error>)
    ensures
        match result {
            Ok(response) => page != PageRequest::Number(0) && is_listing(posts@, page, response@),
            Err(e) => page == PageRequest::Number(0) && e == Error::InvalidPage,
        },
{
    let mut sorted = posts;
    sort_by_created_at(&mut sorted);
    let ghost order = sorted@;
    match paginate(sorted, page) {
        Ok(cut) => {
            let mut members: Vec<JsonMember> = Vec::new();
            members.push(JsonMember { name: "items".to_owned(), value: render_summaries(&cut.items) });
            members.push(
                JsonMember { name: "count".to_owned(), value: JsonValue::Number(cut.count as u64) },
            );
            assert(cut.count == posts@.len());
            assert(members@[1].value@ == JsonModel::Number(cut.count as int));
            let json = JsonValue::Object(members);
            proof {
                let want = listing_json(
                    summaries_of(requested_slice(order, page)),
                    posts@.len() as int,
                );
                assert(json@->Object_0.len() == 2);
                assert(json@->Object_0[0] == want->Object_0[0]);
                assert(json@->Object_0[1] == want->Object_0[1]);
                assert(json@->Object_0 =~= want->Object_0);
                assert(is_stable_sort_of(order, posts@, true));
            }
            Ok(_200(json))
        },
        Err(e) => Err(e),
    }
}

/// `result` answers a request for the index of the public posts in
/// `records` at `page`.
pub open spec fn top_indexes_answer(
    records: Seq<Fields>,
    page: PageRequest,
    result: Result<ResponseModel, Error>,
) -> bool {
    if !all_summaries(records) {
        result == Err::<ResponseModel, Error>(Error::MissingField)
    } else if page == PageRequest::Number(0) {
        result == Err::<ResponseModel, Error>(Error::InvalidPage)
    } else {
        result is Ok && exists|posts: Seq<PostSummary>| #[trigger]
            summaries_of(posts) == summaries_in(records) && is_listing(posts, page, result->Ok_0)
    }
}

/// The result of a handler, by its view.
pub open spec fn outcome(result: Result<Response, Error>) -> Result<ResponseModel, Error> {
    match result {
        Ok(response) => Ok(response@),
        Err(e) => Err(e),
    }
}

/// Answers a request for the index of posts: `items` is what the scan for
/// all public posts found.
pub fn get_top_indexes(page: PageRequest, items: &Vec<AttributeValueItem>) -> (result: Result<
    Response,
    Error,
>)
    ensures
        top_indexes_answer(records_of(items@), page, outcome(result)),
{
    let posts = match read_summaries(items) {
        Ok(posts) => posts,
        Err(e) => {
            return Err(e);
        },
    };
    let ghost found = posts@;
    let result = list_posts(posts, page);
    proof {
        if result is Ok {
            assert(summaries_of(found) == summaries_in(records_of(items@)) && is_listing(
                found,
                page,
                result->Ok_0@,
            ));
        }
    }
    result
}

/// Answers a request for the index of the posts with one tag: `items` is
/// what the scan for the public posts with that tag found.
pub fn get_tag_indexes(page: usize, items: &Vec<AttributeValueItem>) -> (result: Result<
    Response,
    Error,
>)
    ensures
        top_indexes_answer(records_of(items@), PageRequest::Number(page), outcome(result)),
{
    get_top_indexes(PageRequest::Number(page), items)
}

/// `result` answers a request for one post, where `found` is what the store
/// holds under the key: the record as a JSON object, or JSON `null` if
/// there is none.
pub open spec fn post_answer(found: Option<Fields>, result: Result<ResponseModel, Error>) -> bool {
    match found {
        None => result == Ok::<ResponseModel, Error>(ok_json(JsonModel::Null)),
        Some(fields) => if all_renderable(fields) {
            result == Ok::<ResponseModel, Error>(ok_json(json_of_fields(fields)))
        } else {
            result == Err::<ResponseModel, Error>(Error::UnsupportedAttribute)
        },
    }
}

/// The fields of a record that may be absent.
pub open spec fn fields_of(item: Option<&AttributeValueItem>) -> Option<Fields> {
    match item {
        Some(item) => Some(item@),
        None => None,
    }
}

/// Answers a request for one post: `item` is what the lookup by key found.
pub fn get_post(item: Option<&AttributeValueItem>) -> (result: Result<Response, Error>)
    ensures
        post_answer(fields_of(item), outcome(result)),
{
    match item {
        None => Ok(_200(JsonValue::Null)),
        Some(item) => match item.serialize() {
            Ok(json) => Ok(_200(json)),
            Err(e) => Err(e),
        },
    }
}

/// The tag lists that a record holds: its lists `tags` and `search_tags`,
/// if it has both and both are lists of strings.
pub open spec fn tag_lists_in(fields: Fields) -> Option<TagLists> {
    match (strings_under(fields, "tags"@), strings_under(fields, "search_tags"@)) {
        (Some(tags), Some(search_tags)) => Some(TagLists { tags, search_tags }),
        _ => None,
    }
}

/// Each record holds tag lists.
pub open spec fn all_tag_lists(records: Seq<Fields>) -> bool {
    forall|i: int| 0 <= i < records.len() ==> tag_lists_in(#[trigger] records[i]) is Some
}

/// The tag lists that the records hold.
pub open spec fn tag_lists_of(records: Seq<Fields>) -> Seq<TagLists> {
    Seq::new(records.len(), |i: int| tag_lists_in(records[i])->0)
}

/// Reads the tag lists out of each record. One record without them makes
/// the whole input invalid.
pub fn read_tag_lists(items: &Vec<AttributeValueItem>) -> (result: Result<Vec<TableTagData>, Error>)
    ensures
        match result {
            Ok(lists) => all_tag_lists(records_of(items@)) && crate::tags::lists_of(lists@)
                == tag_lists_of(records_of(items@)),
            Err(e) => !all_tag_lists(records_of(items@)) && e == Error::MissingField,
        },
{
    let mut lists: Vec<TableTagData> = Vec::new();
    let mut i: usize = 0;
    while i < items.len()
        invariant
            i <= items@.len(),
            lists@.len() == i,
            forall|j: int| 0 <= j < i ==> tag_lists_in(#[trigger] records_of(items@)[j]) is Some,
            forall|j: int| 0 <= j < i ==> (#[trigger] lists@[j])@ == tag_lists_in(items@[j]@)->0,
        decreases items@.len() - i,
    {
        let tags: Vec<String> = match items[i].list_to_vec("tags") {
            Ok(tags) => tags,
            Err(e) => {
                assert(tag_lists_in(records_of(items@)[i as int]) is None);
                return Err(e);
            },
        };
        let search_tags: Vec<String> = match items[i].list_to_vec("search_tags") {
            Ok(search_tags) => search_tags,
            Err(e) => {
                assert(tag_lists_in(records_of(items@)[i as int]) is None);
                return Err(e);
            },
        };
        let data = TableTagData { tags, search_tags };
        assert(data@.tags =~= tag_lists_in(items@[i as int]@)->0.tags);
        assert(data@.search_tags =~= tag_lists_in(items@[i as int]@)->0.search_tags);
        assert(records_of(items@)[i as int] == items@[i as int]@);
        lists.push(data);
        i += 1;
    }
    assert(crate::tags::lists_of(lists@) =~= tag_lists_of(records_of(items@)));
    Ok(lists)
}

/// One entry of the tag catalog as a JSON object.
pub open spec fn entry_json(entry: TagPair) -> JsonModel {
    JsonModel::Object(
        seq![text_member("tag"@, entry.tag), text_member("search_tag"@, entry.search_tag)],
    )
}

/// The tag catalog as a JSON array of objects.
pub open spec fn catalog_json(entries: Seq<TagPair>) -> JsonModel {
    JsonModel::Array(Seq::new(entries.len(), |i: int| entry_json(entries[i])))
}

/// Renders the tag catalog as a JSON array.
pub fn render_catalog(entries: &Vec<SearchResult>) -> (json: JsonValue)
    ensures
        json@ == catalog_json(pairs_of(entries@)),
{
    let mut items: Vec<JsonValue> = Vec::new();
    let mut i: usize = 0;
    while i < entries.len()
        invariant
            i <= entries@.len(),
            items@.len() == i,
            forall|j: int| 0 <= j < i ==> (#[trigger] items@[j])@ == entry_json(entries@[j]@),
        decreases entries@.len() - i,
    {
        let mut members: Vec<JsonMember> = Vec::new();
        members.push(string_member("tag", entries[i].tag.as_str()));
        members.push(string_member("search_tag", entries[i].search_tag.as_str()));
        let object = JsonValue::Object(members);
        proof {
            let want = entry_json(entries@[i as int]@);
            assert(object@->Object_0.len() == 2);
            assert(object@->Object_0[0] == want->Object_0[0]);
            assert(object@->Object_0[1] == want->Object_0[1]);
            assert(object@->Object_0 =~= want->Object_0);
        }
        items.push(object);
        i += 1;
    }
    let json = JsonValue::Array(items);
    assert(json@->Array_0 =~= catalog_json(pairs_of(entries@))->Array_0);
    json
}

/// `result` answers a request for the tag catalog of `items`.
pub open spec fn all_tags_answer(records: Seq<Fields>, result: Result<ResponseModel, Error>) -> bool {
    if !all_tag_lists(records) {
        result == Err::<ResponseModel, Error>(Error::MissingField)
    } else if !lists_match(tag_lists_of(records)) {
        result == Err::<ResponseModel, Error>(Error::TagListsDiffer)
    } else {
        result is Ok && exists|entries: Seq<TagPair>| #[trigger]
            is_catalog_of(entries, traversal(tag_lists_of(records))) && result->Ok_0 == ok_json(
                catalog_json(entries),
            )
    }
}

/// Answers a request for the tag catalog: `items` is what the scan for the
/// tags of all public posts found.
pub fn get_all_tags(items: &Vec<AttributeValueItem>) -> (result: Result<Response, Error>)
    ensures
        all_tags_answer(records_of(items@), outcome(result)),
{
    let lists = match read_tag_lists(items) {
        Ok(lists) => lists,
        Err(e) => {
            return Err(e);
        },
    };
    match aggregate_tags(&lists) {
        Ok(entries) => {
            let response = _200(render_catalog(&entries));
            assert(is_catalog_of(pairs_of(entries@), traversal(tag_lists_of(records_of(items@)))));
            Ok(response)
        },
        Err(e) => Err(e),
    }
}

/// The lists of records that the scans of a search found, each record by
/// its fields.
pub open spec fn found_lists(matches: Seq<Vec<AttributeValueItem>>) -> Seq<Seq<Fields>> {
    Seq::new(matches.len(), |i: int| records_of(matches[i]@))
}

/// Each record of each list holds a post summary.
pub open spec fn all_lists_summaries(lists: Seq<Seq<Fields>>) -> bool {
    forall|i: int| 0 <= i < lists.len() ==> all_summaries(#[trigger] lists[i])
}

/// `posts` holds, list by list and record by record, the summaries of
/// `lists`.
pub open spec fn summaries_match(posts: Seq<Seq<PostSummary>>, lists: Seq<Seq<Fields>>) -> bool {
    &&& posts.len() == lists.len()
    &&& forall|i: int|
        0 <= i < posts.len() ==> summaries_of(#[trigger] posts[i]) == summaries_in(lists[i])
}

/// `result` answers a search where `lists` is what the scans found for the
/// terms of the query, in the order of the terms.
pub open spec fn search_answer(lists: Seq<Seq<Fields>>, result: Result<ResponseModel, Error>) -> bool {
    if !all_lists_summaries(lists) {
        result == Err::<ResponseModel, Error>(Error::MissingField)
    } else {
        result is Ok && exists|posts: Seq<Seq<PostSummary>>| #[trigger]
            summaries_match(posts, lists) && result->Ok_0 == ok_json(
                summaries_json(summaries_of(combined(posts))),
            )
    }
}

/// Answers a search: `matches` holds what the scan for each term of the
/// query found, in the order of the terms.
pub fn search_post(matches: &Vec<Vec<AttributeValueItem>>) -> (result: Result<Response, Error>)
    ensures
        search_answer(found_lists(matches@), outcome(result)),
{
    let ghost lists = found_lists(matches@);
    let mut posts: Vec<Vec<PostSummary>> = Vec::new();
    let mut i: usize = 0;
    while i < matches.len()
        invariant
            lists == found_lists(matches@),
            i <= matches@.len(),
            posts@.len() == i,
            forall|j: int| 0 <= j < i ==> all_summaries(#[trigger] lists[j]),
            forall|j: int| 0 <= j < i ==> summaries_of((#[trigger] posts@[j])@) == summaries_in(lists[j]),
        decreases matches@.len() - i,
    {
        match read_summaries(&matches[i]) {
            Ok(list) => posts.push(list),
            Err(e) => {
                assert(!all_summaries(lists[i as int]));
                return Err(e);
            },
        }
        i += 1;
    }
    let ghost read = crate::search::lists_of(posts@);
    let candidates = combine_matches(posts);
    let response = _200(render_summaries(&candidates));
    assert(summaries_match(read, lists));
    Ok(response)
}

/// What the scans with the given filters find in a table, one list for each
/// filter, of each record the fields of a summary.
pub open spec fn searched(table: Seq<Fields>, filters: Seq<FilterModel>) -> Seq<Seq<Fields>> {
    Seq::new(
        filters.len(),
        |i: int| scanned(table, filters[i], projection_names(Projection::Summary)),
    )
}

/// `result` is what carrying out `plan` on `table` gives: the answer of the
/// operation to what the scans or the lookup of the plan find in the table.
pub open spec fn carried_out(
    table: Seq<Fields>,
    plan: PlanModel,
    result: Result<ResponseModel, Error>,
) -> bool {
    match plan {
        PlanModel::TopIndexes { page } => top_indexes_answer(
            scanned(table, FilterModel::Visible, projection_names(Projection::Summary)),
            page,
            result,
        ),
        PlanModel::Post { slag } => post_answer(looked_up(table, slag), result),
        PlanModel::AllTags => all_tags_answer(
            scanned(table, FilterModel::Visible, projection_names(Projection::Tags)),
            result,
        ),
        PlanModel::TagIndexes { number, search_tag } => top_indexes_answer(
            scanned(
                table,
                FilterModel::Tagged { search_tag },
                projection_names(Projection::Summary),
            ),
            PageRequest::Number(number),
            result,
        ),
        PlanModel::SearchPost { filters } => search_answer(searched(table, filters), result),
    }
}

/// Carries a plan out on a table held in memory.
pub fn carry_out(table: &Vec<AttributeValueItem>, plan: &Plan) -> (result: Result<Response, Error>)
    ensures
        carried_out(records_of(table@), plan@, outcome(result)),
{
    match plan {
        Plan::TopIndexes { page } => {
            let found = scan(table, &Filter::Visible, &Projection::Summary.names());
            get_top_indexes(*page, &found)
        },
        Plan::Post { slag } => {
            let found = get_item(table, slag.as_str());
            get_post(found.as_ref())
        },
        Plan::AllTags => {
            let found = scan(table, &Filter::Visible, &Projection::Tags.names());
            get_all_tags(&found)
        },
        Plan::TagIndexes { number, search_tag } => {
            let filter = Filter::Tagged { search_tag: search_tag.clone() };
            let found = scan(table, &filter, &Projection::Summary.names());
            get_tag_indexes(*number, &found)
        },
        Plan::SearchPost { filters } => {
            let names = Projection::Summary.names();
            let mut matches: Vec<Vec<AttributeValueItem>> = Vec::new();
            let mut i: usize = 0;
            while i < filters.len()
                invariant
                    i <= filters@.len(),
                    matches@.len() == i,
                    crate::store::names_of(names@) == projection_names(Projection::Summary),
                    forall|j: int|
                        0 <= j < i ==> records_of((#[trigger] matches@[j])@) == scanned(
                            records_of(table@),
                            filters@[j]@,
                            projection_names(Projection::Summary),
                        ),
                decreases filters@.len() - i,
            {
                matches.push(scan(table, &filters[i], &names));
                i += 1;
            }
            assert(found_lists(matches@) =~= searched(records_of(table@), filters_of(filters@)));
            search_post(&matches)
        },
    }
}

/// `result` is what a request gets: a request that leads to no operation is
/// told so, one that the operation refuses is told why, and any other gets
/// what carrying out its plan gives.
pub open spec fn handled(
    table: Seq<Fields>,
    path: Seq<char>,
    method: Seq<char>,
    query: QueryModel,
    result: Result<ResponseModel, Error>,
) -> bool {
    match routed(path, method) {
        Routed::NoEndpoint => result == Ok::<ResponseModel, Error>(not_found(path, false)),
        Routed::NoMethod => result == Ok::<ResponseModel, Error>(not_found(path, true)),
        Routed::Endpoint(route) => match planned(route, query) {
            Err(e) => result == Ok::<ResponseModel, Error>(failure(e)),
            Ok(plan) => carried_out(table, plan, result),
        },
    }
}

/// Answers a request against a table held in memory. The operation is named
/// by what stands in `fullpath` from its last `/` on.
pub fn lambda_handler(table: &Vec<AttributeValueItem>, fullpath: &str, method: &str, query: &Query) -> (result:
    Result<Response, Error>)
    requires
        fullpath@.contains('/'),
    ensures
        handled(records_of(table@), endpoint_path(fullpath@), method@, query@, outcome(result)),
{
    let path = match endpoint_of(fullpath) {
        Some(path) => path,
        None => {
            return Ok(not_found_response(fullpath, false));
        },
    };
    match route(path.as_str(), method) {
        Routed::NoEndpoint => Ok(not_found_response(path.as_str(), false)),
        Routed::NoMethod => Ok(not_found_response(path.as_str(), true)),
        Routed::Endpoint(route) => match plan(route, query) {
            Err(e) => Ok(error_response(e)),
            Ok(plan) => carry_out(table, &plan),
        },
    }
}

} // verus!
