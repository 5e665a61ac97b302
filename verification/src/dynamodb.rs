//! Records as the store hands them out, and their rendering as JSON values.

use crate::error::Error;
use crate::number::{i64_of, parse_i64};
use crate::text::same_text;
use vstd::prelude::*;

verus! {

/// One attribute of a stored record.
#[derive(Debug, PartialEq, Eq)]
pub enum AttributeValue {
    /// A string.
    S(String),
    /// A number, in its decimal text.
    N(String),
    /// A boolean.
    Bool(bool),
    /// The null marker.
    Null(bool),
    /// A set of strings.
    Ss(Vec<String>),
    /// A set of numbers, each in its decimal text.
    Ns(Vec<String>),
    /// A list of attributes.
    L(Vec<AttributeValue>),
    /// Binary data, a set of binary data, a nested map, or a kind of attribute
    /// that is not known: none of them has a JSON rendering.
    Unsupported,
}

/// What an attribute holds, as mathematical values.
pub enum AttributeModel {
    S(Seq<char>),
    N(Seq<char>),
    Bool(bool),
    Null(bool),
    Ss(Seq<Seq<char>>),
    Ns(Seq<Seq<char>>),
    L(Seq<AttributeModel>),
    Unsupported,
}

/// The strings of a vector, each by its characters.
pub open spec fn texts(v: Seq<String>) -> Seq<Seq<char>> {
    Seq::new(v.len(), |i: int| v[i]@)
}

impl View for AttributeValue {
    type V = AttributeModel;

    open spec fn view(&self) -> AttributeModel
        decreases self,
    {
        match self {
            AttributeValue::S(s) => AttributeModel::S(s@),
            AttributeValue::N(n) => AttributeModel::N(n@),
            AttributeValue::Bool(b) => AttributeModel::Bool(*b),
            AttributeValue::Null(b) => AttributeModel::Null(*b),
            AttributeValue::Ss(v) => AttributeModel::Ss(texts(v@)),
            AttributeValue::Ns(v) => AttributeModel::Ns(texts(v@)),
            AttributeValue::L(v) => AttributeModel::L(
                Seq::new(
                    v@.len(),
                    |i: int|
                        if 0 <= i < v@.len() {
                            v[i].view()
                        } else {
                            AttributeModel::Unsupported
                        },
                ),
            ),
            AttributeValue::Unsupported => AttributeModel::Unsupported,
        }
    }
}

/// A JSON value.
#[derive(Debug, PartialEq, Eq)]
pub enum JsonValue {
    Null,
    Bool(bool),
    Number(u64),
    String(String),
    Array(Vec<JsonValue>),
    /// An object: its members in the order in which they are written.
    Object(Vec<JsonMember>),
}

/// One member of a JSON object.
#[derive(Debug, PartialEq, Eq)]
pub struct JsonMember {
    pub name: String,
    pub value: JsonValue,
}

/// What a JSON value holds, as mathematical values.
pub enum JsonModel {
    Null,
    Bool(bool),
    Number(int),
    String(Seq<char>),
    Array(Seq<JsonModel>),
    Object(Seq<MemberModel>),
}

/// What a member of a JSON object holds.
pub struct MemberModel {
    pub name: Seq<char>,
    pub value: JsonModel,
}

impl View for JsonValue {
    type V = JsonModel;

    open spec fn view(&self) -> JsonModel
        decreases self,
    {
        match self {
            JsonValue::Null => JsonModel::Null,
            JsonValue::Bool(b) => JsonModel::Bool(*b),
            JsonValue::Number(n) => JsonModel::Number(*n as int),
            JsonValue::String(s) => JsonModel::String(s@),
            JsonValue::Array(v) => JsonModel::Array(
                Seq::new(
                    v@.len(),
                    |i: int|
                        if 0 <= i < v@.len() {
                            v[i].view()
                        } else {
                            JsonModel::Null
                        },
                ),
            ),
            JsonValue::Object(m) => JsonModel::Object(
                Seq::new(
                    m@.len(),
                    |i: int|
                        if 0 <= i < m@.len() {
                            MemberModel { name: m[i].name@, value: m[i].value.view() }
                        } else {
                            MemberModel { name: Seq::empty(), value: JsonModel::Null }
                        },
                ),
            ),
        }
    }
}

/// The member called `name` that holds `text` as a JSON string.
pub open spec fn text_member(name: Seq<char>, text: Seq<char>) -> MemberModel {
    MemberModel { name, value: JsonModel::String(text) }
}

/// Makes the member called `name` that holds `text` as a JSON string.
pub fn string_member(name: &str, text: &str) -> (member: JsonMember)
    ensures
        member.name@ == name@,
        member.value@ == JsonModel::String(text@),
{
    JsonMember { name: name.to_owned(), value: JsonValue::String(text.to_owned()) }
}

/// Whether an attribute has a JSON rendering: every kind but the unsupported
/// ones has, and a list has one if each of its items has.
pub open spec fn renderable(a: AttributeModel) -> bool
    decreases a,
{
    match a {
        AttributeModel::L(items) => forall|i: int|
            0 <= i < items.len() ==> renderable(#[trigger] items[i]),
        AttributeModel::Unsupported => false,
        _ => true,
    }
}

/// Each text as a JSON string.
pub open spec fn json_strings(v: Seq<Seq<char>>) -> Seq<JsonModel> {
    Seq::new(v.len(), |i: int| JsonModel::String(v[i]))
}

/// The JSON rendering of an attribute. Strings and numbers become JSON
/// strings, sets and lists become arrays.
pub open spec fn json_of(a: AttributeModel) -> JsonModel
    recommends
        renderable(a),
    decreases a,
{
    match a {
        AttributeModel::S(s) => JsonModel::String(s),
        AttributeModel::N(n) => JsonModel::String(n),
        AttributeModel::Bool(b) => JsonModel::Bool(b),
        AttributeModel::Null(_) => JsonModel::Null,
        AttributeModel::Ss(v) => JsonModel::Array(json_strings(v)),
        AttributeModel::Ns(v) => JsonModel::Array(json_strings(v)),
        AttributeModel::L(items) => JsonModel::Array(
            Seq::new(
                items.len(),
                |i: int|
                    if 0 <= i < items.len() {
                        json_of(items[i])
                    } else {
                        JsonModel::Null
                    },
            ),
        ),
        AttributeModel::Unsupported => JsonModel::Null,
    }
}

/// The fields of a record: each name with what is stored under it.
pub type Fields = Seq<(Seq<char>, AttributeModel)>;

/// No name is used by two fields.
pub open spec fn names_distinct(fields: Fields) -> bool {
    forall|i: int, j: int| 0 <= i < j < fields.len() ==> fields[i].0 != fields[j].0
}

/// The field at offset `i` goes by `name`.
pub open spec fn named_at(fields: Fields, name: Seq<char>, i: int) -> bool {
    0 <= i < fields.len() && fields[i].0 == name
}

/// The record has a field called `name`.
pub open spec fn has_field(fields: Fields, name: Seq<char>) -> bool {
    exists|i: int| named_at(fields, name, i)
}

/// What the record holds under `name`.
pub open spec fn field(fields: Fields, name: Seq<char>) -> AttributeModel
    recommends
        has_field(fields, name),
{
    fields[choose|i: int| named_at(fields, name, i)].1
}

/// The record with `value` stored under `name`, in the place of what was
/// stored there, or as a new last field.
pub open spec fn with_field(fields: Fields, name: Seq<char>, value: AttributeModel) -> Fields {
    if has_field(fields, name) {
        fields.update(choose|i: int| named_at(fields, name, i), (name, value))
    } else {
        fields.push((name, value))
    }
}

/// Every field of the record has a JSON rendering.
pub open spec fn all_renderable(fields: Fields) -> bool {
    forall|i: int| 0 <= i < fields.len() ==> renderable(#[trigger] fields[i].1)
}

/// The JSON object of a record: one member per field, in the same order,
/// under the same name.
pub open spec fn json_of_fields(fields: Fields) -> JsonModel {
    JsonModel::Object(
        Seq::new(
            fields.len(),
            |i: int| MemberModel { name: fields[i].0, value: json_of(fields[i].1) },
        ),
    )
}

/// A stored record: a finite mapping from field names to attributes.
#[derive(Debug, PartialEq, Eq)]
pub struct AttributeValueItem {
    entries: Vec<(String, AttributeValue)>,
}

impl View for AttributeValueItem {
    type V = Fields;

    closed spec fn view(&self) -> Fields {
        Seq::new(self.entries@.len(), |i: int| (self.entries@[i].0@, self.entries@[i].1@))
    }
}

impl AttributeValueItem {
    #[verifier::type_invariant]
    spec fn well_formed(&self) -> bool {
        names_distinct(self@)
    }

    /// A record without fields.
    pub fn new() -> (item: Self)
        ensures
            item@ == Seq::<(Seq<char>, AttributeModel)>::empty(),
    {
        let item = AttributeValueItem { entries: Vec::new() };
        assert(item@ =~= Seq::<(Seq<char>, AttributeModel)>::empty());
        item
    }

    /// Number of fields. No two of them go by the same name.
    pub fn len(&self) -> (n: usize)
        ensures
            n == self@.len(),
            names_distinct(self@),
    {
        proof {
            use_type_invariant(self);
        }
        self.entries.len()
    }

    /// Offset of the field called `name`.
    fn position(&self, name: &str) -> (at: Option<usize>)
        ensures
            match at {
                Some(i) => named_at(self@, name@, i as int),
                None => !has_field(self@, name@),
            },
    {
        let mut i: usize = 0;
        while i < self.entries.len()
            invariant
                i <= self.entries@.len(),
                forall|j: int| 0 <= j < i ==> !named_at(self@, name@, j),
            decreases self.entries@.len() - i,
        {
            if same_text(self.entries[i].0.as_str(), name) {
                return Some(i);
            }
            i += 1;
        }
        None
    }

    /// Stores `value` under `name`, replacing what was stored there.
    pub fn insert(&mut self, name: String, value: AttributeValue)
        ensures
            final(self)@ == with_field(old(self)@, name@, value@),
            names_distinct(final(self)@),
    {
        proof {
            use_type_invariant(&*self);
        }
        let ghost before = self@;
        let ghost entry = (name@, value@);
        let at = self.position(name.as_str());
        // The fields are taken out as a whole and put back as a whole, so
        // that the record is never seen with a name used twice.
        let mut taken = AttributeValueItem { entries: Vec::new() };
        assert(names_distinct(taken@));
        core::mem::swap(self, &mut taken);
        let mut entries = taken.entries;
        match at {
            Some(i) => {
                let ghost chosen = choose|k: int| named_at(before, name@, k);
                assert(chosen == i) by {
                    if chosen < i {
                        assert(before[chosen].0 != before[i as int].0);
                    } else if i < chosen {
                        assert(before[i as int].0 != before[chosen].0);
                    }
                }
                entries.set(i, (name, value));
            },
            None => {
                entries.push((name, value));
            },
        }
        let ghost after = Seq::new(entries@.len(), |k: int| (entries@[k].0@, entries@[k].1@));
        assert(after =~= with_field(before, name@, value@));
        assert(names_distinct(after)) by {
            assert forall|a: int, b: int| 0 <= a < b < after.len() implies after[a].0 != after[b].0 by {
                if at is None {
                    if b == before.len() {
                        assert(!named_at(before, name@, a));
                    } else {
                        assert(before[a].0 != before[b].0);
                    }
                } else {
                    assert(before[a].0 != before[b].0);
                }
            }
        }
        *self = AttributeValueItem { entries };
        assert(self@ =~= after);
    }

    /// What is stored under `name`, if anything.
    pub fn get(&self, name: &str) -> (found: Option<&AttributeValue>)
        ensures
            match found {
                Some(value) => has_field(self@, name@) && value@ == field(self@, name@),
                None => !has_field(self@, name@),
            },
    {
        proof {
            use_type_invariant(self);
        }
        match self.position(name) {
            Some(i) => {
                let ghost chosen = choose|k: int| named_at(self@, name@, k);
                assert(chosen == i) by {
                    if chosen < i {
                        assert(self@[chosen].0 != self@[i as int].0);
                    } else if i < chosen {
                        assert(self@[i as int].0 != self@[chosen].0);
                    }
                }
                Some(&self.entries[i].1)
            },
            None => None,
        }
    }

    /// Renders strings as JSON strings.
    fn strings_to_json(strings: &Vec<String>) -> (array: JsonValue)
        ensures
            array@ == JsonModel::Array(json_strings(texts(strings@))),
    {
        let mut out: Vec<JsonValue> = Vec::new();
        let mut i: usize = 0;
        while i < strings.len()
            invariant
                i <= strings@.len(),
                out@.len() == i,
                forall|j: int| 0 <= j < i ==> (#[trigger] out@[j])@ == JsonModel::String(strings@[j]@),
            decreases strings@.len() - i,
        {
            out.push(JsonValue::String(strings[i].clone()));
            i += 1;
        }
        let array = JsonValue::Array(out);
        assert(array@->Array_0 =~= json_strings(texts(strings@)));
        array
    }

    /// Renders one attribute as a JSON value. An attribute without a JSON
    /// rendering, alone or inside a list, is refused.
    pub fn serialize_attribute_value(value: &AttributeValue) -> (result: Result<JsonValue, Error>)
        ensures
            match result {
                Ok(json) => renderable(value@) && json@ == json_of(value@),
                Err(e) => !renderable(value@) && e == Error::UnsupportedAttribute,
            },
        decreases value,
    {
        match value {
            AttributeValue::S(s) => Ok(JsonValue::String(s.clone())),
            AttributeValue::N(n) => Ok(JsonValue::String(n.clone())),
            AttributeValue::Bool(b) => Ok(JsonValue::Bool(*b)),
            AttributeValue::Null(_) => Ok(JsonValue::Null),
            AttributeValue::Ss(ss) => Ok(Self::strings_to_json(ss)),
            AttributeValue::Ns(ns) => Ok(Self::strings_to_json(ns)),
            AttributeValue::L(l) => {
                let mut out: Vec<JsonValue> = Vec::new();
                let mut i: usize = 0;
                while i < l.len()
                    invariant
                        *value == AttributeValue::L(*l),
                        i <= l@.len(),
                        out@.len() == i,
                        forall|j: int| 0 <= j < i ==> renderable((#[trigger] l@[j])@),
                        forall|j: int| 0 <= j < i ==> (#[trigger] out@[j])@ == json_of(l@[j]@),
                    decreases l@.len() - i,
                {
                    match Self::serialize_attribute_value(&l[i]) {
                        Ok(json) => out.push(json),
                        Err(e) => {
                            assert(value@->L_0[i as int] == l@[i as int]@);
                            return Err(e);
                        },
                    }
                    i += 1;
                }
                let array = JsonValue::Array(out);
                assert forall|j: int| 0 <= j < value@->L_0.len() implies renderable(
                    #[trigger] value@->L_0[j],
                ) by {
                    assert(value@->L_0[j] == l@[j]@);
                }
                assert(array@->Array_0 =~= json_of(value@)->Array_0);
                Ok(array)
            },
            AttributeValue::Unsupported => Err(Error::UnsupportedAttribute),
        }
    }

    /// Renders the record as a JSON object, one member per field. A record
    /// with a field that has no JSON rendering is refused.
    pub fn serialize(&self) -> (result: Result<JsonValue, Error>)
        ensures
            match result {
                Ok(json) => all_renderable(self@) && json@ == json_of_fields(self@),
                Err(e) => !all_renderable(self@) && e == Error::UnsupportedAttribute,
            },
    {
        let mut members: Vec<JsonMember> = Vec::new();
        let mut i: usize = 0;
        while i < self.entries.len()
            invariant
                i <= self.entries@.len(),
                members@.len() == i,
                forall|j: int| 0 <= j < i ==> renderable((#[trigger] self@[j]).1),
                forall|j: int|
                    0 <= j < i ==> (#[trigger] members@[j]).name@ == self@[j].0
                        && members@[j].value@ == json_of(self@[j].1),
            decreases self.entries@.len() - i,
        {
            match Self::serialize_attribute_value(&self.entries[i].1) {
                Ok(json) => members.push(
                    JsonMember { name: self.entries[i].0.clone(), value: json },
                ),
                Err(e) => {
                    assert(!renderable(self@[i as int].1));
                    return Err(e);
                },
            }
            i += 1;
        }
        let object = JsonValue::Object(members);
        assert(object@->Object_0 =~= json_of_fields(self@)->Object_0);
        Ok(object)
    }
}

/// The values of a vector, each by its view.
pub open spec fn views_of<T: View>(items: Seq<T>) -> Seq<T::V> {
    Seq::new(items.len(), |i: int| items[i]@)
}

/// The items of the list stored under `key`, if a list is stored there.
pub open spec fn list_items(fields: Fields, key: Seq<char>) -> Option<Seq<AttributeModel>> {
    if has_field(fields, key) {
        match field(fields, key) {
            AttributeModel::L(items) => Some(items),
            _ => None,
        }
    } else {
        None
    }
}

/// The items as strings, if each of them is a string.
pub open spec fn as_strings(items: Seq<AttributeModel>) -> Option<Seq<Seq<char>>> {
    if forall|i: int| 0 <= i < items.len() ==> (#[trigger] items[i]) is S {
        Some(Seq::new(items.len(), |i: int| items[i]->S_0))
    } else {
        None
    }
}

/// The number written in a number attribute, if the attribute is one and the
/// number fits an `i64`.
pub open spec fn number_in(item: AttributeModel) -> Option<int> {
    match item {
        AttributeModel::N(text) => i64_of(text),
        _ => None,
    }
}

/// The items as numbers, if each of them is a number that fits an `i64`.
pub open spec fn as_numbers(items: Seq<AttributeModel>) -> Option<Seq<i64>> {
    if forall|i: int| 0 <= i < items.len() ==> number_in(#[trigger] items[i]) is Some {
        Some(Seq::new(items.len(), |i: int| number_in(items[i])->0 as i64))
    } else {
        None
    }
}

/// The items as booleans, if each of them is a boolean.
pub open spec fn as_bools(items: Seq<AttributeModel>) -> Option<Seq<bool>> {
    if forall|i: int| 0 <= i < items.len() ==> (#[trigger] items[i]) is Bool {
        Some(Seq::new(items.len(), |i: int| items[i]->Bool_0))
    } else {
        None
    }
}

/// The strings of the list stored under `key`, if a list of strings is
/// stored there.
pub open spec fn strings_under(fields: Fields, key: Seq<char>) -> Option<Seq<Seq<char>>> {
    match list_items(fields, key) {
        Some(items) => as_strings(items),
        None => None,
    }
}

/// The numbers of the list stored under `key`, if a list of numbers that fit
/// an `i64` is stored there.
pub open spec fn numbers_under(fields: Fields, key: Seq<char>) -> Option<Seq<i64>> {
    match list_items(fields, key) {
        Some(items) => as_numbers(items),
        None => None,
    }
}

/// The booleans of the list stored under `key`, if a list of booleans is
/// stored there.
pub open spec fn bools_under(fields: Fields, key: Seq<char>) -> Option<Seq<bool>> {
    match list_items(fields, key) {
        Some(items) => as_bools(items),
        None => None,
    }
}

/// Reading a list attribute of a record as a vector of plain values.
pub trait ListToVec<T: View> {
    /// The list stored under `key`, item by item, if there is a list under
    /// that name and each of its items reads as a `T`.
    spec fn list_under(&self, key: Seq<char>) -> Option<Seq<T::V>>;

    /// Reads the list stored under `key`. A record without that field, with
    /// something else than a list under it, or with an item that does not
    /// read as a `T`, is refused.
    fn list_to_vec(&self, key: &str) -> (result: Result<Vec<T>, Error>)
        ensures
            match result {
                Ok(items) => self.list_under(key@) == Some(views_of(items@)),
                Err(e) => self.list_under(key@) is None && e == Error::MissingField,
            },
    ;
}

impl AttributeValueItem {
    /// The list stored under `key`.
    fn list_at(&self, key: &str) -> (found: Option<&Vec<AttributeValue>>)
        ensures
            match found {
                Some(list) => list_items(self@, key@) == Some(views_of(list@)),
                None => list_items(self@, key@) is None,
            },
    {
        match self.get(key) {
            Some(AttributeValue::L(list)) => {
                assert(field(self@, key@)->L_0 =~= views_of(list@));
                Some(list)
            },
            _ => None,
        }
    }
}

impl ListToVec<String> for AttributeValueItem {
    open spec fn list_under(&self, key: Seq<char>) -> Option<Seq<Seq<char>>> {
        strings_under(self@, key)
    }

    fn list_to_vec(&self, key: &str) -> (result: Result<Vec<String>, Error>) {
        let list = match self.list_at(key) {
            Some(list) => list,
            None => {
                return Err(Error::MissingField);
            },
        };
        let ghost items = views_of(list@);
        let mut out: Vec<String> = Vec::new();
        let mut i: usize = 0;
        while i < list.len()
            invariant
                items == views_of(list@),
                list_items(self@, key@) == Some(items),
                i <= list@.len(),
                out@.len() == i,
                forall|j: int| 0 <= j < i ==> (#[trigger] items[j]) is S,
                forall|j: int| 0 <= j < i ==> (#[trigger] out@[j])@ == items[j]->S_0,
            decreases list@.len() - i,
        {
            match &list[i] {
                AttributeValue::S(s) => out.push(s.clone()),
                _ => {
                    assert(!(items[i as int] is S));
                    return Err(Error::MissingField);
                },
            }
            i += 1;
        }
        assert(views_of(out@) =~= as_strings(items)->0);
        Ok(out)
    }
}

impl ListToVec<i64> for AttributeValueItem {
    open spec fn list_under(&self, key: Seq<char>) -> Option<Seq<i64>> {
        numbers_under(self@, key)
    }

    fn list_to_vec(&self, key: &str) -> (result: Result<Vec<i64>, Error>) {
        let list = match self.list_at(key) {
            Some(list) => list,
            None => {
                return Err(Error::MissingField);
            },
        };
        let ghost items = views_of(list@);
        let mut out: Vec<i64> = Vec::new();
        let mut i: usize = 0;
        while i < list.len()
            invariant
                items == views_of(list@),
                list_items(self@, key@) == Some(items),
                i <= list@.len(),
                out@.len() == i,
                forall|j: int| 0 <= j < i ==> number_in(#[trigger] items[j]) is Some,
                forall|j: int| 0 <= j < i ==> (#[trigger] out@[j]) == number_in(items[j])->0 as i64,
            decreases list@.len() - i,
        {
            let number = match &list[i] {
                AttributeValue::N(text) => parse_i64(text.as_str()),
                _ => None,
            };
            match number {
                Some(n) => out.push(n),
                None => {
                    assert(number_in(items[i as int]) is None);
                    return Err(Error::MissingField);
                },
            }
            i += 1;
        }
        assert(views_of(out@) =~= as_numbers(items)->0);
        Ok(out)
    }
}

impl ListToVec<bool> for AttributeValueItem {
    open spec fn list_under(&self, key: Seq<char>) -> Option<Seq<bool>> {
        bools_under(self@, key)
    }

    fn list_to_vec(&self, key: &str) -> (result: Result<Vec<bool>, Error>) {
        let list = match self.list_at(key) {
            Some(list) => list,
            None => {
                return Err(Error::MissingField);
            },
        };
        let ghost items = views_of(list@);
        let mut out: Vec<bool> = Vec::new();
        let mut i: usize = 0;
        while i < list.len()
            invariant
                items == views_of(list@),
                list_items(self@, key@) == Some(items),
                i <= list@.len(),
                out@.len() == i,
                forall|j: int| 0 <= j < i ==> (#[trigger] items[j]) is Bool,
                forall|j: int| 0 <= j < i ==> (#[trigger] out@[j]) == items[j]->Bool_0,
            decreases list@.len() - i,
        {
            match &list[i] {
                AttributeValue::Bool(b) => out.push(*b),
                _ => {
                    assert(!(items[i as int] is Bool));
                    return Err(Error::MissingField);
                },
            }
            i += 1;
        }
        assert(views_of(out@) =~= as_bools(items)->0);
        Ok(out)
    }
}

/// A copy of the strings.
pub fn duplicate_strings(strings: &Vec<String>) -> (copy: Vec<String>)
    ensures
        texts(copy@) == texts(strings@),
{
    let mut copy: Vec<String> = Vec::new();
    let mut i: usize = 0;
    while i < strings.len()
        invariant
            i <= strings@.len(),
            copy@.len() == i,
            forall|j: int| 0 <= j < i ==> (#[trigger] copy@[j])@ == strings@[j]@,
        decreases strings@.len() - i,
    {
        copy.push(strings[i].clone());
        i += 1;
    }
    assert(texts(copy@) =~= texts(strings@));
    copy
}

impl AttributeValue {
    /// A copy that holds the same as `self`.
    pub fn duplicate(&self) -> (copy: AttributeValue)
        ensures
            copy@ == self@,
        decreases self,
    {
        match self {
            AttributeValue::S(s) => AttributeValue::S(s.clone()),
            AttributeValue::N(n) => AttributeValue::N(n.clone()),
            AttributeValue::Bool(b) => AttributeValue::Bool(*b),
            AttributeValue::Null(b) => AttributeValue::Null(*b),
            AttributeValue::Ss(v) => AttributeValue::Ss(duplicate_strings(v)),
            AttributeValue::Ns(v) => AttributeValue::Ns(duplicate_strings(v)),
            AttributeValue::L(items) => {
                let mut copy: Vec<AttributeValue> = Vec::new();
                let mut i: usize = 0;
                while i < items.len()
                    invariant
                        *self == AttributeValue::L(*items),
                        i <= items@.len(),
                        copy@.len() == i,
                        forall|j: int| 0 <= j < i ==> (#[trigger] copy@[j])@ == items@[j]@,
                    decreases items@.len() - i,
                {
                    assert(self is L && self->L_0 == *items);
                    let item = AttributeValue::duplicate(&items[i]);
                    copy.push(item);
                    i += 1;
                }
                let list = AttributeValue::L(copy);
                assert(list@->L_0 =~= self@->L_0);
                list
            },
            AttributeValue::Unsupported => AttributeValue::Unsupported,
        }
    }
}

impl AttributeValueItem {
    /// A copy that holds the same fields as `self`.
    pub fn duplicate(&self) -> (copy: AttributeValueItem)
        ensures
            copy@ == self@,
    {
        proof {
            use_type_invariant(self);
        }
        let mut entries: Vec<(String, AttributeValue)> = Vec::new();
        let mut i: usize = 0;
        while i < self.entries.len()
            invariant
                i <= self.entries@.len(),
                entries@.len() == i,
                forall|j: int|
                    0 <= j < i ==> (#[trigger] entries@[j]).0@ == self.entries@[j].0@ && entries@[j].1@
                        == self.entries@[j].1@,
            decreases self.entries@.len() - i,
        {
            entries.push((self.entries[i].0.clone(), self.entries[i].1.duplicate()));
            i += 1;
        }
        let ghost fields = Seq::new(entries@.len(), |k: int| (entries@[k].0@, entries@[k].1@));
        assert(fields =~= self@);
        let copy = AttributeValueItem { entries };
        assert(copy@ =~= fields);
        copy
    }

    /// The name of the field at offset `i`.
    pub fn name_at(&self, i: usize) -> (name: &str)
        requires
            i < self@.len(),
        ensures
            name@ == self@[i as int].0,
    {
        self.entries[i].0.as_str()
    }

    /// What the field at offset `i` holds.
    pub fn value_at(&self, i: usize) -> (value: &AttributeValue)
        requires
            i < self@.len(),
        ensures
            value@ == self@[i as int].1,
    {
        &self.entries[i].1
    }
}

} // verus!
