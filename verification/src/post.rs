//! Post summaries: what a listing shows of a post.

use crate::dynamodb::{
    field, has_field, string_member, text_member, AttributeValue, AttributeValueItem, Fields,
    JsonMember, JsonModel, JsonValue,
};
use crate::error::Error;
use crate::order::str_lt;
use crate::sorting::{is_stable_sort_of, ranks_before, sort_stable, with_rank, Ranked};
use vstd::prelude::*;

verus! {

/// The projection of a post that listings and search results are made of.
#[derive(Clone, Debug, PartialEq, Eq)]
pub struct PostSummary {
    /// The key of the post.
    pub slag: String,
    pub title: String,
    /// When the post was created, in a format that sorts as text.
    pub created_at: String,
    pub updated_at: String,
}

/// A post summary, as texts.
pub struct SummaryModel {
    pub slag: Seq<char>,
    pub title: Seq<char>,
    pub created_at: Seq<char>,
    pub updated_at: Seq<char>,
}

impl View for PostSummary {
    type V = SummaryModel;

    open spec fn view(&self) -> SummaryModel {
        SummaryModel {
            slag: self.slag@,
            title: self.title@,
            created_at: self.created_at@,
            updated_at: self.updated_at@,
        }
    }
}

impl Ranked for PostSummary {
    open spec fn rank(&self) -> Seq<char> {
        self.created_at@
    }

    fn rank_str(&self) -> (s: &str) {
        self.created_at.as_str()
    }
}

/// The summaries of a listing, each as texts.
pub open spec fn summaries_of(items: Seq<PostSummary>) -> Seq<SummaryModel> {
    Seq::new(items.len(), |i: int| items[i]@)
}

/// The record stores a string under `name`.
pub open spec fn has_text(fields: Fields, name: Seq<char>) -> bool {
    has_field(fields, name) && field(fields, name) is S
}

/// The string that the record stores under `name`.
pub open spec fn text_field(fields: Fields, name: Seq<char>) -> Seq<char>
    recommends
        has_text(fields, name),
{
    field(fields, name)->S_0
}

/// The record stores a string under each of the four names of a summary.
pub open spec fn is_summary(fields: Fields) -> bool {
    &&& has_text(fields, "slag"@)
    &&& has_text(fields, "title"@)
    &&& has_text(fields, "created_at"@)
    &&& has_text(fields, "updated_at"@)
}

/// The summary that a record holds.
pub open spec fn summary_in(fields: Fields) -> SummaryModel
    recommends
        is_summary(fields),
{
    SummaryModel {
        slag: text_field(fields, "slag"@),
        title: text_field(fields, "title"@),
        created_at: text_field(fields, "created_at"@),
        updated_at: text_field(fields, "updated_at"@),
    }
}

/// The JSON object of a summary: its four texts under their names.
pub open spec fn summary_json(summary: SummaryModel) -> JsonModel {
    JsonModel::Object(
        seq![
            text_member("slag"@, summary.slag),
            text_member("title"@, summary.title),
            text_member("created_at"@, summary.created_at),
            text_member("updated_at"@, summary.updated_at),
        ],
    )
}

/// The string stored under `name`.
pub fn read_text(item: &AttributeValueItem, name: &str) -> (text: Option<String>)
    ensures
        match text {
            Some(s) => has_text(item@, name@) && s@ == text_field(item@, name@),
            None => !has_text(item@, name@),
        },
{
    match item.get(name) {
        Some(AttributeValue::S(s)) => Some(s.clone()),
        _ => None,
    }
}

impl PostSummary {
    /// Reads the summary out of a record. A record that lacks one of the four
    /// fields, or holds something else than a string under it, is refused.
    pub fn from_record(item: &AttributeValueItem) -> (result: Result<PostSummary, Error>)
        ensures
            match result {
                Ok(summary) => is_summary(item@) && summary@ == summary_in(item@),
                Err(e) => !is_summary(item@) && e == Error::MissingField,
            },
    {
        let slag = match read_text(item, "slag") {
            Some(s) => s,
            None => {
                return Err(Error::MissingField);
            },
        };
        let title = match read_text(item, "title") {
            Some(s) => s,
            None => {
                return Err(Error::MissingField);
            },
        };
        let created_at = match read_text(item, "created_at") {
            Some(s) => s,
            None => {
                return Err(Error::MissingField);
            },
        };
        let updated_at = match read_text(item, "updated_at") {
            Some(s) => s,
            None => {
                return Err(Error::MissingField);
            },
        };
        Ok(PostSummary { slag, title, created_at, updated_at })
    }

    /// Renders the summary as a JSON object.
    pub fn to_json(&self) -> (json: JsonValue)
        ensures
            json@ == summary_json(self@),
    {
        let mut members: Vec<JsonMember> = Vec::new();
        members.push(string_member("slag", self.slag.as_str()));
        members.push(string_member("title", self.title.as_str()));
        members.push(string_member("created_at", self.created_at.as_str()));
        members.push(string_member("updated_at", self.updated_at.as_str()));
        let json = JsonValue::Object(members);
        proof {
            let got = json@->Object_0;
            let want = summary_json(self@)->Object_0;
            assert(got.len() == 4);
            assert(got[0] == want[0]);
            assert(got[1] == want[1]);
            assert(got[2] == want[2]);
            assert(got[3] == want[3]);
            assert(got =~= want);
        }
        json
    }
}

/// The listing is ordered from the newest post to the oldest.
pub open spec fn newest_first(items: Seq<PostSummary>) -> bool {
    forall|i: int, j: int|
        0 <= i < j < items.len() ==> !str_lt(
            (#[trigger] items[i]).created_at@,
            (#[trigger] items[j]).created_at@,
        )
}

/// Sorts the listing from the newest post to the oldest. Posts created at the
/// same time stay in the order in which they came.
pub fn sort_by_created_at(items: &mut Vec<PostSummary>)
    ensures
        newest_first(final(items)@),
        forall|created_at: Seq<char>| #[trigger]
            with_rank(final(items)@, created_at) == with_rank(old(items)@, created_at),
        final(items)@.len() == old(items)@.len(),
        final(items)@.to_multiset() == old(items)@.to_multiset(),
        is_stable_sort_of(final(items)@, old(items)@, true),
{
    sort_stable(items, true);
    proof {
        let sorted = items@;
        assert forall|i: int, j: int| 0 <= i < j < sorted.len() implies !str_lt(
            (#[trigger] sorted[i]).created_at@,
            (#[trigger] sorted[j]).created_at@,
        ) by {
            assert(!ranks_before(sorted[j].rank(), sorted[i].rank(), true));
        }
    }
}

} // verus!
