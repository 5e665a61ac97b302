//! What a scan asks of the store, and the same scan run on records held in
//! memory.

use crate::dynamodb::{
    field, has_field, with_field, AttributeModel, AttributeValue, AttributeValueItem, Fields,
};
use crate::text::{chars_of, same_text};
use vstd::prelude::*;

verus! {

/// A record is open to the public if it has no `publish` field, or the
/// boolean `true` under it.
pub open spec fn visible(fields: Fields) -> bool {
    !has_field(fields, "publish"@) || field(fields, "publish"@) == AttributeModel::Bool(true)
}

/// Whether the record is open to the public.
pub fn is_visible(item: &AttributeValueItem) -> (result: bool)
    ensures
        result == visible(item@),
{
    match item.get("publish") {
        None => true,
        Some(AttributeValue::Bool(b)) => *b,
        Some(_) => false,
    }
}

/// `needle` stands in `text` at offset `at`.
pub open spec fn occurs_at(needle: Seq<char>, text: Seq<char>, at: int) -> bool {
    &&& 0 <= at
    &&& at + needle.len() <= text.len()
    &&& text.subrange(at, at + needle.len()) == needle
}

/// `needle` stands somewhere in `text`.
pub open spec fn occurs_in(needle: Seq<char>, text: Seq<char>) -> bool {
    exists|at: int| occurs_at(needle, text, at)
}

/// Whether `needle` stands in `text` at offset `at`.
fn stands_at(needle: &Vec<char>, text: &Vec<char>, at: usize) -> (result: bool)
    requires
        at + needle@.len() <= text@.len(),
    ensures
        result == occurs_at(needle@, text@, at as int),
{
    let length = text.len();
    let mut i: usize = 0;
    while i < needle.len()
        invariant
            at + needle@.len() <= text@.len(),
            text@.len() == length,
            i <= needle@.len(),
            forall|j: int| 0 <= j < i ==> text@[at + j] == needle@[j],
        decreases needle@.len() - i,
    {
        if text[at + i] != needle[i] {
            assert(text@.subrange(at as int, at + needle@.len())[i as int] != needle@[i as int]);
            return false;
        }
        i += 1;
    }
    assert(text@.subrange(at as int, at + needle@.len()) =~= needle@);
    true
}

/// Whether `needle` stands somewhere in `text`.
pub fn contains_text(text: &str, needle: &str) -> (result: bool)
    ensures
        result == occurs_in(needle@, text@),
{
    let hay = chars_of(text);
    let pin = chars_of(needle);
    if pin.len() > hay.len() {
        return false;
    }
    let last: usize = hay.len() - pin.len();
    let mut at: usize = 0;
    while at < last
        invariant
            hay@ == text@,
            pin@ == needle@,
            last == hay@.len() - pin@.len(),
            at <= last,
            forall|k: int| 0 <= k < at ==> !occurs_at(needle@, text@, k),
        decreases last - at,
    {
        if stands_at(&pin, &hay, at) {
            return true;
        }
        at += 1;
    }
    stands_at(&pin, &hay, last)
}

/// What the store's `contains` says of an attribute and a text: a string
/// contains the text as a part of it, a set of strings as one of its
/// members, a list as one of its items; nothing else contains it.
pub open spec fn attribute_contains(attribute: AttributeModel, operand: Seq<char>) -> bool {
    match attribute {
        AttributeModel::S(text) => occurs_in(operand, text),
        AttributeModel::Ss(members) => members.contains(operand),
        AttributeModel::L(items) => items.contains(AttributeModel::S(operand)),
        _ => false,
    }
}

/// The record has a field `name` that contains `operand`.
pub open spec fn field_contains(fields: Fields, name: Seq<char>, operand: Seq<char>) -> bool {
    has_field(fields, name) && attribute_contains(field(fields, name), operand)
}

/// Whether the record has a field `name` that contains `operand`.
pub fn has_in_field(item: &AttributeValueItem, name: &str, operand: &str) -> (result: bool)
    ensures
        result == field_contains(item@, name@, operand@),
{
    match item.get(name) {
        Some(AttributeValue::S(text)) => contains_text(text.as_str(), operand),
        Some(AttributeValue::Ss(members)) => {
            let ghost texts = field(item@, name@)->Ss_0;
            let mut i: usize = 0;
            while i < members.len()
                invariant
                    has_field(item@, name@),
                    field(item@, name@) == AttributeModel::Ss(texts),
                    i <= members@.len(),
                    texts.len() == members@.len(),
                    forall|j: int| 0 <= j < members@.len() ==> #[trigger] texts[j] == members@[j]@,
                    forall|j: int| 0 <= j < i ==> #[trigger] texts[j] != operand@,
                decreases members@.len() - i,
            {
                if same_text(members[i].as_str(), operand) {
                    assert(texts[i as int] == operand@);
                    return true;
                }
                i += 1;
            }
            false
        },
        Some(AttributeValue::L(items)) => {
            let ghost models = field(item@, name@)->L_0;
            let mut i: usize = 0;
            while i < items.len()
                invariant
                    has_field(item@, name@),
                    field(item@, name@) == AttributeModel::L(models),
                    i <= items@.len(),
                    models.len() == items@.len(),
                    forall|j: int| 0 <= j < items@.len() ==> #[trigger] models[j] == items@[j]@,
                    forall|j: int| 0 <= j < i ==> #[trigger] models[j] != AttributeModel::S(operand@),
                decreases items@.len() - i,
            {
                let same = match &items[i] {
                    AttributeValue::S(text) => same_text(text.as_str(), operand),
                    _ => false,
                };
                if same {
                    assert(models[i as int] == AttributeModel::S(operand@));
                    return true;
                }
                i += 1;
            }
            false
        },
        _ => false,
    }
}

/// Which records a scan asks for.
#[derive(Clone, Debug, PartialEq, Eq)]
pub enum Filter {
    /// Every record that is open to the public.
    Visible,
    /// The public records whose search tags hold the given one.
    Tagged { search_tag: String },
    /// The public records that a term of a query finds: those whose key
    /// contains the whole query, whose search title contains the term, or
    /// whose search tags hold the term or all terms joined by hyphens.
    Matching { query: String, term: String, joined: String },
}

/// A filter, as texts.
pub enum FilterModel {
    Visible,
    Tagged { search_tag: Seq<char> },
    Matching { query: Seq<char>, term: Seq<char>, joined: Seq<char> },
}

impl View for Filter {
    type V = FilterModel;

    open spec fn view(&self) -> FilterModel {
        match self {
            Filter::Visible => FilterModel::Visible,
            Filter::Tagged { search_tag } => FilterModel::Tagged { search_tag: search_tag@ },
            Filter::Matching { query, term, joined } => FilterModel::Matching {
                query: query@,
                term: term@,
                joined: joined@,
            },
        }
    }
}

/// The record is one that the filter asks for.
pub open spec fn admits(filter: FilterModel, fields: Fields) -> bool {
    match filter {
        FilterModel::Visible => visible(fields),
        FilterModel::Tagged { search_tag } => field_contains(fields, "search_tags"@, search_tag)
            && visible(fields),
        FilterModel::Matching { query, term, joined } => (field_contains(fields, "slag"@, query)
            || field_contains(fields, "search_title"@, term) || field_contains(
            fields,
            "search_tags"@,
            term,
        ) || field_contains(fields, "search_tags"@, joined)) && visible(fields),
    }
}

/// Whatever the filter, a record that it asks for is open to the public.
pub proof fn lemma_admitted_is_visible(filter: FilterModel, fields: Fields)
    requires
        admits(filter, fields),
    ensures
        visible(fields),
{
}

impl Filter {
    /// Whether the record is one that the filter asks for.
    pub fn admits(&self, item: &AttributeValueItem) -> (result: bool)
        ensures
            result == admits(self@, item@),
    {
        match self {
            Filter::Visible => is_visible(item),
            Filter::Tagged { search_tag } => has_in_field(item, "search_tags", search_tag.as_str())
                && is_visible(item),
            Filter::Matching { query, term, joined } => (has_in_field(item, "slag", query.as_str())
                || has_in_field(item, "search_title", term.as_str()) || has_in_field(
                item,
                "search_tags",
                term.as_str(),
            ) || has_in_field(item, "search_tags", joined.as_str())) && is_visible(item),
        }
    }
}

/// The names that a scan keeps of each record.
pub open spec fn names_of(names: Seq<&'static str>) -> Seq<Seq<char>> {
    Seq::new(names.len(), |i: int| names[i]@)
}

/// What is left of a record when only the fields with the given names are
/// kept: they stand in the order of the names.
pub open spec fn projected(fields: Fields, names: Seq<Seq<char>>) -> Fields
    decreases names.len(),
{
    if names.len() == 0 {
        Seq::empty()
    } else {
        let kept = projected(fields, names.drop_last());
        if has_field(fields, names.last()) {
            with_field(kept, names.last(), field(fields, names.last()))
        } else {
            kept
        }
    }
}

/// Keeps of a record the fields with the given names.
pub fn project(item: &AttributeValueItem, names: &Vec<&'static str>) -> (kept: AttributeValueItem)
    ensures
        kept@ == projected(item@, names_of(names@)),
{
    let ghost all = names_of(names@);
    let mut kept = AttributeValueItem::new();
    let mut i: usize = 0;
    assert(all.take(0) =~= Seq::<Seq<char>>::empty());
    while i < names.len()
        invariant
            all == names_of(names@),
            i <= names@.len(),
            kept@ == projected(item@, all.take(i as int)),
        decreases names@.len() - i,
    {
        assert(all.take(i + 1).drop_last() =~= all.take(i as int));
        assert(all.take(i + 1).last() == names@[i as int]@);
        match item.get(names[i]) {
            Some(value) => {
                kept.insert(names[i].to_owned(), value.duplicate());
            },
            None => {},
        }
        i += 1;
    }
    assert(all.take(i as int) =~= all);
    kept
}

/// The records of a table, each by its fields.
pub open spec fn records_of(table: Seq<AttributeValueItem>) -> Seq<Fields> {
    Seq::new(table.len(), |i: int| table[i]@)
}

/// What a scan finds in a table: of each record that the filter asks for,
/// in the order of the table, the fields with the given names.
pub open spec fn scanned(table: Seq<Fields>, filter: FilterModel, names: Seq<Seq<char>>) -> Seq<
    Fields,
> {
    table.filter(|fields: Fields| admits(filter, fields)).map_values(
        |fields: Fields| projected(fields, names),
    )
}

/// Runs a scan on a table held in memory.
pub fn scan(table: &Vec<AttributeValueItem>, filter: &Filter, names: &Vec<&'static str>) -> (found:
    Vec<AttributeValueItem>)
    ensures
        records_of(found@) == scanned(records_of(table@), filter@, names_of(names@)),
{
    let ghost records = records_of(table@);
    let ghost wanted = |fields: Fields| admits(filter@, fields);
    let ghost cut = |fields: Fields| projected(fields, names_of(names@));
    let mut found: Vec<AttributeValueItem> = Vec::new();
    let mut i: usize = 0;
    assert(records_of(found@) =~= records.take(0).filter(wanted).map_values(cut)) by {
        reveal(Seq::filter);
    }
    while i < table.len()
        invariant
            records == records_of(table@),
            wanted == |fields: Fields| admits(filter@, fields),
            cut == |fields: Fields| projected(fields, names_of(names@)),
            i <= table@.len(),
            records_of(found@) == records.take(i as int).filter(wanted).map_values(cut),
        decreases table@.len() - i,
    {
        let ghost before = records_of(found@);
        proof {
            reveal(Seq::filter);
            assert(records.take(i + 1).drop_last() =~= records.take(i as int));
            assert(records.take(i + 1).last() == table@[i as int]@);
        }
        if filter.admits(&table[i]) {
            found.push(project(&table[i], names));
            assert(records_of(found@) =~= before.push(cut(table@[i as int]@)));
            assert(records.take(i + 1).filter(wanted).map_values(cut) =~= before.push(
                cut(table@[i as int]@),
            ));
        }
        i += 1;
    }
    assert(records.take(i as int) =~= records);
    found
}

/// The record is the one stored under the key `slag`.
pub open spec fn keyed(fields: Fields, slag: Seq<char>) -> bool {
    has_field(fields, "slag"@) && field(fields, "slag"@) == AttributeModel::S(slag)
}

/// Offset `i` is where the first record with the key `slag` stands.
pub open spec fn first_keyed_at(table: Seq<Fields>, slag: Seq<char>, i: int) -> bool {
    &&& 0 <= i < table.len()
    &&& keyed(table[i], slag)
    &&& forall|j: int| 0 <= j < i ==> !keyed(#[trigger] table[j], slag)
}

/// The record stored under the key `slag`, if there is one.
pub open spec fn looked_up(table: Seq<Fields>, slag: Seq<char>) -> Option<Fields> {
    if exists|i: int| first_keyed_at(table, slag, i) {
        Some(table[choose|i: int| first_keyed_at(table, slag, i)])
    } else {
        None
    }
}

/// Looks a record up by its key in a table held in memory. Whether the
/// record is open to the public plays no part.
pub fn get_item(table: &Vec<AttributeValueItem>, slag: &str) -> (found: Option<AttributeValueItem>)
    ensures
        match found {
            Some(item) => looked_up(records_of(table@), slag@) == Some(item@),
            None => looked_up(records_of(table@), slag@) is None,
        },
{
    let ghost records = records_of(table@);
    let mut i: usize = 0;
    while i < table.len()
        invariant
            records == records_of(table@),
            i <= table@.len(),
            forall|j: int| 0 <= j < i ==> !keyed(#[trigger] records[j], slag@),
        decreases table@.len() - i,
    {
        let here = match table[i].get("slag") {
            Some(AttributeValue::S(key)) => same_text(key.as_str(), slag),
            _ => false,
        };
        if here {
            proof {
                assert(records[i as int] == table@[i as int]@);
                assert(first_keyed_at(records, slag@, i as int));
                let chosen = choose|k: int| first_keyed_at(records, slag@, k);
                assert(chosen == i);
            }
            return Some(table[i].duplicate());
        }
        assert(records[i as int] == table@[i as int]@);
        i += 1;
    }
    None
}

/// Every record that a scan finds is what is kept of a record of the table
/// that is open to the public.
pub proof fn lemma_scan_finds_only_public(
    table: Seq<Fields>,
    filter: FilterModel,
    names: Seq<Seq<char>>,
    i: int,
)
    requires
        0 <= i < scanned(table, filter, names).len(),
    ensures
        exists|j: int|
            0 <= j < table.len() && visible(#[trigger] table[j]) && admits(filter, table[j])
                && scanned(table, filter, names)[i] == projected(table[j], names),
{
    let wanted = |fields: Fields| admits(filter, fields);
    let kept = table.filter(wanted);
    table.lemma_filter_pred(wanted, i);
    assert(table.contains(kept[i])) by {
        table.lemma_filter_contains_rev(wanted, kept[i]);
    }
    let j = choose|j: int| 0 <= j < table.len() && table[j] == kept[i];
    assert(visible(table[j]) && admits(filter, table[j]));
}

/// A lookup by key finds the first record with that key, public or not.
pub proof fn lemma_lookup_ignores_visibility(table: Seq<Fields>, slag: Seq<char>, i: int)
    requires
        first_keyed_at(table, slag, i),
    ensures
        looked_up(table, slag) == Some(table[i]),
{
    let chosen = choose|k: int| first_keyed_at(table, slag, k);
    assert(chosen == i);
}

/// Which fields a scan keeps of each record.
#[derive(Clone, Copy, Debug, PartialEq, Eq, Structural)]
pub enum Projection {
    /// The four fields of a post summary.
    Summary,
    /// The display tags and the search tags.
    Tags,
}

/// The names of the fields that a projection keeps.
pub open spec fn projection_names(projection: Projection) -> Seq<Seq<char>> {
    match projection {
        Projection::Summary => seq!["slag"@, "title"@, "created_at"@, "updated_at"@],
        Projection::Tags => seq!["tags"@, "search_tags"@],
    }
}

/// The projection, as the store wants it written.
pub open spec fn projection_text(projection: Projection) -> Seq<char> {
    match projection {
        Projection::Summary => "slag, title, created_at, updated_at"@,
        Projection::Tags => "tags, search_tags"@,
    }
}

/// The filter, as the store wants it written. The values stand under the
/// placeholders that `placeholder_values` gives.
pub open spec fn filter_text(filter: FilterModel) -> Seq<char> {
    match filter {
        FilterModel::Visible => "attribute_not_exists(publish) OR publish = :publish"@,
        FilterModel::Tagged { .. } =>
            "contains(search_tags, :encoded_tag) AND (attribute_not_exists(publish) OR publish = :publish)"@,
        FilterModel::Matching { .. } =>
            "(contains(slag, :query) OR contains(search_title, :q) OR contains(search_tags, :q) OR contains(search_tags, :joined)) AND (attribute_not_exists(publish) OR publish = :publish)"@,
    }
}

/// The values that stand for the placeholders of a written filter.
pub open spec fn placeholder_values(filter: FilterModel) -> Fields {
    let publish = (":publish"@, AttributeModel::Bool(true));
    match filter {
        FilterModel::Visible => seq![publish],
        FilterModel::Tagged { search_tag } => seq![
            (":encoded_tag"@, AttributeModel::S(search_tag)),
            publish,
        ],
        FilterModel::Matching { query, term, joined } => seq![
            (":query"@, AttributeModel::S(query)),
            (":q"@, AttributeModel::S(term)),
            (":joined"@, AttributeModel::S(joined)),
            publish,
        ],
    }
}

impl Projection {
    /// The names of the fields that the projection keeps.
    pub fn names(&self) -> (names: Vec<&'static str>)
        ensures
            names_of(names@) == projection_names(*self),
    {
        let mut names: Vec<&'static str> = Vec::new();
        match self {
            Projection::Summary => {
                names.push("slag");
                names.push("title");
                names.push("created_at");
                names.push("updated_at");
            },
            Projection::Tags => {
                names.push("tags");
                names.push("search_tags");
            },
        }
        assert(names_of(names@) =~= projection_names(*self));
        names
    }

    /// The projection, as the store wants it written.
    pub fn expression(&self) -> (text: &'static str)
        ensures
            text@ == projection_text(*self),
    {
        match self {
            Projection::Summary => "slag, title, created_at, updated_at",
            Projection::Tags => "tags, search_tags",
        }
    }
}

impl Filter {
    /// The filter, as the store wants it written.
    pub fn expression(&self) -> (text: &'static str)
        ensures
            text@ == filter_text(self@),
    {
        match self {
            Filter::Visible => "attribute_not_exists(publish) OR publish = :publish",
            Filter::Tagged { .. } =>
                "contains(search_tags, :encoded_tag) AND (attribute_not_exists(publish) OR publish = :publish)",
            Filter::Matching { .. } =>
                "(contains(slag, :query) OR contains(search_title, :q) OR contains(search_tags, :q) OR contains(search_tags, :joined)) AND (attribute_not_exists(publish) OR publish = :publish)",
        }
    }

    /// The values that stand for the placeholders of the written filter,
    /// each with its placeholder.
    pub fn values(&self) -> (values: Vec<(&'static str, AttributeValue)>)
        ensures
            values@.len() == placeholder_values(self@).len(),
            forall|i: int|
                0 <= i < values@.len() ==> (#[trigger] values@[i]).0@ == placeholder_values(self@)[i].0
                    && values@[i].1@ == placeholder_values(self@)[i].1,
    {
        let mut values: Vec<(&'static str, AttributeValue)> = Vec::new();
        match self {
            Filter::Visible => {},
            Filter::Tagged { search_tag } => {
                values.push((":encoded_tag", AttributeValue::S(search_tag.clone())));
            },
            Filter::Matching { query, term, joined } => {
                values.push((":query", AttributeValue::S(query.clone())));
                values.push((":q", AttributeValue::S(term.clone())));
                values.push((":joined", AttributeValue::S(joined.clone())));
            },
        }
        values.push((":publish", AttributeValue::Bool(true)));
        values
    }

    /// A copy of the filter.
    pub fn duplicate(&self) -> (copy: Filter)
        ensures
            copy@ == self@,
    {
        match self {
            Filter::Visible => Filter::Visible,
            Filter::Tagged { search_tag } => Filter::Tagged { search_tag: search_tag.clone() },
            Filter::Matching { query, term, joined } => Filter::Matching {
                query: query.clone(),
                term: term.clone(),
                joined: joined.clone(),
            },
        }
    }
}

} // verus!
