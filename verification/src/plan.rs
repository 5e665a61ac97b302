//! What has to be read from the store for a request: its parameters are
//! checked and turned into a plan of scans or a lookup.

use crate::error::{Error, Param};
use crate::number::{parse_usize, unsigned_of};
use crate::pagination::PageRequest;
use crate::routing::Route;
use crate::search::{join_terms, joined, split_terms, terms_of, texts_of};
use crate::store::{Filter, FilterModel};
use crate::text::same_text;
use vstd::prelude::*;
use vstd::string::*;
use vstd::utf8::encode_utf8;

verus! {

/// The upper-case hexadecimal digit for a number below 16.
pub open spec fn upper_hex_digit(n: int) -> char
    recommends
        0 <= n < 16,
{
    if n < 10 {
        ('0' as u8 + n) as u8 as char
    } else {
        ('A' as u8 + n - 10) as u8 as char
    }
}

/// The bytes that a search tag does not hold as they are: the control
/// characters and every byte outside ASCII.
pub open spec fn is_escaped(byte: u8) -> bool {
    byte < 0x20 || byte >= 0x7f
}

/// How one byte stands in a search tag: as itself, or as `%` and its two
/// hexadecimal digits.
pub open spec fn encoded_byte(byte: u8) -> Seq<char> {
    if is_escaped(byte) {
        seq!['%', upper_hex_digit(byte as int / 16), upper_hex_digit(byte as int % 16)]
    } else {
        seq![byte as char]
    }
}

/// The percent-encoding of a run of bytes.
pub open spec fn percent_encoded(bytes: Seq<u8>) -> Seq<char>
    decreases bytes.len(),
{
    if bytes.len() == 0 {
        Seq::empty()
    } else {
        percent_encoded(bytes.drop_last()) + encoded_byte(bytes.last())
    }
}

/// The search tag that belongs to a display tag: the percent-encoding of
/// its UTF-8 bytes.
pub open spec fn search_tag_of(tag: Seq<char>) -> Seq<char> {
    percent_encoded(encode_utf8(tag))
}

/// `percent_encoding::utf8_percent_encode` with the set
/// `percent_encoding::CONTROLS`: the UTF-8 bytes of `tag`, where each
/// control character and each byte outside ASCII is written as `%` and two
/// upper-case hexadecimal digits, and every other byte as it is.
#[verifier::external_body]
fn encode_tag(tag: &str) -> (encoded: String)
    ensures
        encoded@ == search_tag_of(tag@),
{
    percent_encoding::utf8_percent_encode(tag, percent_encoding::CONTROLS).to_string()
}

/// A text in lower case, by the rules of Unicode.
pub uninterp spec fn lowercase_of(text: Seq<char>) -> Seq<char>;

/// `str::to_lowercase`: `text` in lower case.
#[verifier::external_body]
fn to_lowercase(text: &str) -> (lowered: String)
    ensures
        lowered@ == lowercase_of(text@),
{
    text.to_lowercase()
}

/// The parameters of a request that the operations read, each with the
/// first value given for it.
#[derive(Clone, Debug, PartialEq, Eq)]
pub struct Query {
    pub page: Option<String>,
    pub slag: Option<String>,
    pub tag: Option<String>,
    pub query: Option<String>,
}

/// The parameters of a request, as texts.
pub struct QueryModel {
    pub page: Option<Seq<char>>,
    pub slag: Option<Seq<char>>,
    pub tag: Option<Seq<char>>,
    pub query: Option<Seq<char>>,
}

/// The text of a parameter, if it was given.
pub open spec fn given(value: Option<String>) -> Option<Seq<char>> {
    match value {
        Some(text) => Some(text@),
        None => None,
    }
}

impl View for Query {
    type V = QueryModel;

    open spec fn view(&self) -> QueryModel {
        QueryModel {
            page: given(self.page),
            slag: given(self.slag),
            tag: given(self.tag),
            query: given(self.query),
        }
    }
}

/// What has to be read from the store to answer a request.
#[derive(Clone, Debug, PartialEq, Eq)]
pub enum Plan {
    /// All public posts, for the given page of the index.
    TopIndexes { page: PageRequest },
    /// The post with the given key.
    Post { slag: String },
    /// The tags of all public posts.
    AllTags,
    /// The public posts with the given search tag, for the page with the
    /// given number.
    TagIndexes { number: usize, search_tag: String },
    /// One scan for each term of a query.
    SearchPost { filters: Vec<Filter> },
}

/// A plan, as mathematical values.
pub enum PlanModel {
    TopIndexes { page: PageRequest },
    Post { slag: Seq<char> },
    AllTags,
    TagIndexes { number: usize, search_tag: Seq<char> },
    SearchPost { filters: Seq<FilterModel> },
}

/// The filters, each as texts.
pub open spec fn filters_of(filters: Seq<Filter>) -> Seq<FilterModel> {
    Seq::new(filters.len(), |i: int| filters[i]@)
}

impl View for Plan {
    type V = PlanModel;

    open spec fn view(&self) -> PlanModel {
        match self {
            Plan::TopIndexes { page } => PlanModel::TopIndexes { page: *page },
            Plan::Post { slag } => PlanModel::Post { slag: slag@ },
            Plan::AllTags => PlanModel::AllTags,
            Plan::TagIndexes { number, search_tag } => PlanModel::TagIndexes {
                number: *number,
                search_tag: search_tag@,
            },
            Plan::SearchPost { filters } => PlanModel::SearchPost { filters: filters_of(filters@) },
        }
    }
}

/// The page number that a text denotes: a positive decimal number that fits
/// a `usize`.
pub open spec fn page_number(text: Seq<char>) -> Option<usize> {
    match unsigned_of(text, usize::MAX as nat) {
        Some(n) => if n >= 1 {
            Some(n as usize)
        } else {
            None
        },
        None => None,
    }
}

/// The page that the parameter of the top index asks for: `all`, or a page
/// number.
pub open spec fn page_request(text: Seq<char>) -> Option<PageRequest> {
    if text == "all"@ {
        Some(PageRequest::All)
    } else {
        match page_number(text) {
            Some(n) => Some(PageRequest::Number(n)),
            None => None,
        }
    }
}

/// Reads a page number.
pub fn parse_page_number(text: &str) -> (page: Option<usize>)
    ensures
        page == page_number(text@),
{
    match parse_usize(text) {
        Some(n) => if n >= 1 {
            Some(n)
        } else {
            None
        },
        None => None,
    }
}

/// Reads the page parameter of the top index.
pub fn parse_page_request(text: &str) -> (page: Option<PageRequest>)
    ensures
        page == page_request(text@),
{
    if same_text(text, "all") {
        Some(PageRequest::All)
    } else {
        match parse_page_number(text) {
            Some(n) => Some(PageRequest::Number(n)),
            None => None,
        }
    }
}

/// The scans of a search for a query that is already in lower case: one for
/// each of its terms, in order, each with the whole query, the term, and all
/// terms joined by hyphens.
pub open spec fn search_filters(lowered: Seq<char>) -> Seq<FilterModel> {
    Seq::new(
        terms_of(lowered).len(),
        |i: int|
            FilterModel::Matching {
                query: lowered,
                term: terms_of(lowered)[i],
                joined: joined(terms_of(lowered), "-"@),
            },
    )
}

/// Plans the scans of a search for a query that is already in lower case.
pub fn plan_search(lowered: &str) -> (filters: Vec<Filter>)
    ensures
        filters_of(filters@) == search_filters(lowered@),
{
    let terms = split_terms(lowered);
    let mut filters: Vec<Filter> = Vec::new();
    let mut i: usize = 0;
    while i < terms.len()
        invariant
            texts_of(terms@) == terms_of(lowered@),
            i <= terms@.len(),
            filters@.len() == i,
            forall|j: int| 0 <= j < i ==> (#[trigger] filters@[j])@ == search_filters(lowered@)[j],
        decreases terms@.len() - i,
    {
        assert(texts_of(terms@)[i as int] == terms@[i as int]@);
        filters.push(
            Filter::Matching {
                query: lowered.to_owned(),
                term: terms[i].clone(),
                joined: join_terms(&terms, "-"),
            },
        );
        i += 1;
    }
    assert(texts_of(terms@).len() == terms@.len());
    assert(filters_of(filters@) =~= search_filters(lowered@));
    filters
}

/// What has to be read for a request to `route` with the parameters
/// `query`, or why the request is refused.
pub open spec fn planned(route: Route, query: QueryModel) -> Result<PlanModel, Error> {
    match route {
        Route::TopIndexes => match query.page {
            None => Err(Error::MissingParameter(Param::Page)),
            Some(text) => match page_request(text) {
                Some(page) => Ok(PlanModel::TopIndexes { page }),
                None => Err(Error::InvalidPage),
            },
        },
        Route::Post => match query.slag {
            None => Err(Error::MissingParameter(Param::Slag)),
            Some(slag) => Ok(PlanModel::Post { slag }),
        },
        Route::AllTags => Ok(PlanModel::AllTags),
        Route::TagIndexes => match query.page {
            None => Err(Error::MissingParameter(Param::Page)),
            Some(text) => match query.tag {
                None => Err(Error::MissingParameter(Param::Tag)),
                Some(tag) => match page_number(text) {
                    Some(number) => Ok(PlanModel::TagIndexes { number, search_tag: search_tag_of(tag) }),
                    None => Err(Error::InvalidPage),
                },
            },
        },
        Route::SearchPost => match query.query {
            None => Err(Error::MissingParameter(Param::Query)),
            Some(text) => Ok(PlanModel::SearchPost { filters: search_filters(lowercase_of(text)) }),
        },
    }
}

/// Checks the parameters of a request and plans what to read for it. A
/// request without a parameter that the operation needs is refused, and so
/// is one whose page is not a page.
pub fn plan(route: Route, query: &Query) -> (result: Result<Plan, Error>)
    ensures
        match result {
            Ok(plan) => planned(route, query@) == Ok::<PlanModel, Error>(plan@),
            Err(e) => planned(route, query@) == Err::<PlanModel, Error>(e),
        },
{
    match route {
        Route::TopIndexes => match &query.page {
            None => Err(Error::MissingParameter(Param::Page)),
            Some(text) => match parse_page_request(text.as_str()) {
                Some(page) => Ok(Plan::TopIndexes { page }),
                None => Err(Error::InvalidPage),
            },
        },
        Route::Post => match &query.slag {
            None => Err(Error::MissingParameter(Param::Slag)),
            Some(slag) => Ok(Plan::Post { slag: slag.clone() }),
        },
        Route::AllTags => Ok(Plan::AllTags),
        Route::TagIndexes => match &query.page {
            None => Err(Error::MissingParameter(Param::Page)),
            Some(text) => match &query.tag {
                None => Err(Error::MissingParameter(Param::Tag)),
                Some(tag) => match parse_page_number(text.as_str()) {
                    Some(number) => Ok(
                        Plan::TagIndexes { number, search_tag: encode_tag(tag.as_str()) },
                    ),
                    None => Err(Error::InvalidPage),
                },
            },
        },
        Route::SearchPost => match &query.query {
            None => Err(Error::MissingParameter(Param::Query)),
            Some(text) => {
                let lowered = to_lowercase(text.as_str());
                Ok(Plan::SearchPost { filters: plan_search(lowered.as_str()) })
            },
        },
    }
}

} // verus!
