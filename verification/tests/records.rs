use blog_listing::dynamodb::{AttributeValue, AttributeValueItem, JsonMember, JsonValue, ListToVec};
use blog_listing::error::Error;

fn text(s: &str) -> AttributeValue {
    AttributeValue::S(s.to_string())
}

fn number(s: &str) -> AttributeValue {
    AttributeValue::N(s.to_string())
}

fn item_of(fields: Vec<(&str, AttributeValue)>) -> AttributeValueItem {
    let mut item = AttributeValueItem::new();
    for (name, value) in fields {
        item.insert(name.to_string(), value);
    }
    item
}

fn json_text(s: &str) -> JsonValue {
    JsonValue::String(s.to_string())
}

#[test]
fn a_new_record_has_no_fields() {
    let item = AttributeValueItem::new();
    assert_eq!(item.len(), 0);
    assert_eq!(item.get("slag"), None);
}

#[test]
fn insert_stores_and_get_finds() {
    let item = item_of(vec![("slag", text("hello")), ("publish", AttributeValue::Bool(false))]);
    assert_eq!(item.len(), 2);
    assert_eq!(item.get("slag"), Some(&text("hello")));
    assert_eq!(item.get("publish"), Some(&AttributeValue::Bool(false)));
    assert_eq!(item.get("title"), None);
    assert_eq!(item.name_at(1), "publish");
    assert_eq!(item.value_at(0), &text("hello"));
}

#[test]
fn insert_replaces_what_was_stored_under_the_name() {
    let item = item_of(vec![("a", text("1")), ("b", text("2")), ("a", text("3"))]);
    assert_eq!(item.len(), 2);
    assert_eq!(item.get("a"), Some(&text("3")));
    assert_eq!(item.name_at(0), "a");
    assert_eq!(item.name_at(1), "b");
}

#[test]
fn duplicate_holds_the_same() {
    let item = item_of(vec![
        ("slag", text("hello")),
        ("tags", AttributeValue::L(vec![text("a"), AttributeValue::L(vec![number("1")])])),
        ("set", AttributeValue::Ss(vec!["x".to_string()])),
    ]);
    assert_eq!(item.duplicate(), item);
}

#[test]
fn strings_and_numbers_become_json_strings() {
    assert_eq!(AttributeValueItem::serialize_attribute_value(&text("hi")), Ok(json_text("hi")));
    assert_eq!(AttributeValueItem::serialize_attribute_value(&number("42")), Ok(json_text("42")));
}

#[test]
fn booleans_and_null_keep_their_kind() {
    assert_eq!(
        AttributeValueItem::serialize_attribute_value(&AttributeValue::Bool(true)),
        Ok(JsonValue::Bool(true))
    );
    assert_eq!(
        AttributeValueItem::serialize_attribute_value(&AttributeValue::Null(true)),
        Ok(JsonValue::Null)
    );
    assert_eq!(
        AttributeValueItem::serialize_attribute_value(&AttributeValue::Null(false)),
        Ok(JsonValue::Null)
    );
}

#[test]
fn sets_and_lists_become_arrays() {
    let set = AttributeValue::Ss(vec!["a".to_string(), "b".to_string()]);
    assert_eq!(
        AttributeValueItem::serialize_attribute_value(&set),
        Ok(JsonValue::Array(vec![json_text("a"), json_text("b")]))
    );
    let numbers = AttributeValue::Ns(vec!["1".to_string(), "2.5".to_string()]);
    assert_eq!(
        AttributeValueItem::serialize_attribute_value(&numbers),
        Ok(JsonValue::Array(vec![json_text("1"), json_text("2.5")]))
    );
    let list = AttributeValue::L(vec![
        text("a"),
        AttributeValue::Bool(false),
        AttributeValue::L(vec![number("7")]),
        AttributeValue::L(vec![]),
    ]);
    assert_eq!(
        AttributeValueItem::serialize_attribute_value(&list),
        Ok(JsonValue::Array(vec![
            json_text("a"),
            JsonValue::Bool(false),
            JsonValue::Array(vec![json_text("7")]),
            JsonValue::Array(vec![]),
        ]))
    );
}

#[test]
fn unsupported_attributes_are_refused() {
    assert_eq!(
        AttributeValueItem::serialize_attribute_value(&AttributeValue::Unsupported),
        Err(Error::UnsupportedAttribute)
    );
    let nested = AttributeValue::L(vec![text("a"), AttributeValue::L(vec![AttributeValue::Unsupported])]);
    assert_eq!(AttributeValueItem::serialize_attribute_value(&nested), Err(Error::UnsupportedAttribute));
}

#[test]
fn a_record_becomes_an_object_with_its_fields() {
    let item = item_of(vec![("slag", text("hello")), ("views", number("3")), ("publish", AttributeValue::Bool(true))]);
    assert_eq!(
        item.serialize(),
        Ok(JsonValue::Object(vec![
            JsonMember { name: "slag".to_string(), value: json_text("hello") },
            JsonMember { name: "views".to_string(), value: json_text("3") },
            JsonMember { name: "publish".to_string(), value: JsonValue::Bool(true) },
        ]))
    );
    assert_eq!(AttributeValueItem::new().serialize(), Ok(JsonValue::Object(vec![])));
}

#[test]
fn a_record_with_an_unsupported_field_is_refused() {
    let item = item_of(vec![("slag", text("hello")), ("blob", AttributeValue::Unsupported)]);
    assert_eq!(item.serialize(), Err(Error::UnsupportedAttribute));
}

#[test]
fn a_list_of_strings_is_read() {
    let item = item_of(vec![("tags", AttributeValue::L(vec![text("rust"), text("aws")]))]);
    let tags: Result<Vec<String>, Error> = item.list_to_vec("tags");
    assert_eq!(tags, Ok(vec!["rust".to_string(), "aws".to_string()]));
    let empty = item_of(vec![("tags", AttributeValue::L(vec![]))]);
    let none: Result<Vec<String>, Error> = empty.list_to_vec("tags");
    assert_eq!(none, Ok(vec![]));
}

#[test]
fn a_list_of_numbers_is_read() {
    let item = item_of(vec![("ids", AttributeValue::L(vec![number("1"), number("-20"), number("+3")]))]);
    let ids: Result<Vec<i64>, Error> = item.list_to_vec("ids");
    assert_eq!(ids, Ok(vec![1, -20, 3]));
}

#[test]
fn a_list_of_booleans_is_read() {
    let item = item_of(vec![("flags", AttributeValue::L(vec![AttributeValue::Bool(true), AttributeValue::Bool(false)]))]);
    let flags: Result<Vec<bool>, Error> = item.list_to_vec("flags");
    assert_eq!(flags, Ok(vec![true, false]));
}

#[test]
fn reading_a_list_refuses_what_is_none() {
    let item = item_of(vec![
        ("tags", AttributeValue::L(vec![text("rust"), number("1")])),
        ("title", text("hello")),
        ("set", AttributeValue::Ss(vec!["a".to_string()])),
        ("ids", AttributeValue::L(vec![number("1"), number("1.5")])),
        ("big", AttributeValue::L(vec![number("9223372036854775808")])),
    ]);
    let mixed: Result<Vec<String>, Error> = item.list_to_vec("tags");
    assert_eq!(mixed, Err(Error::MissingField));
    let absent: Result<Vec<String>, Error> = item.list_to_vec("search_tags");
    assert_eq!(absent, Err(Error::MissingField));
    let no_list: Result<Vec<String>, Error> = item.list_to_vec("title");
    assert_eq!(no_list, Err(Error::MissingField));
    let set: Result<Vec<String>, Error> = item.list_to_vec("set");
    assert_eq!(set, Err(Error::MissingField));
    let fraction: Result<Vec<i64>, Error> = item.list_to_vec("ids");
    assert_eq!(fraction, Err(Error::MissingField));
    let too_big: Result<Vec<i64>, Error> = item.list_to_vec("big");
    assert_eq!(too_big, Err(Error::MissingField));
    let not_bools: Result<Vec<bool>, Error> = item.list_to_vec("tags");
    assert_eq!(not_bools, Err(Error::MissingField));
}
