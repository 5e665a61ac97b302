//! What a handler answers: a status and a body.

use crate::dynamodb::{JsonModel, JsonValue};
use crate::error::{Error, Param};
use vstd::prelude::*;
use vstd::string::StringExecFns;

verus! {

/// The body of an answer.
#[derive(Debug, PartialEq, Eq)]
pub enum Body {
    /// A message in plain text.
    Text(String),
    /// A JSON document.
    Json(JsonValue),
}

/// A body, as mathematical values.
pub enum BodyModel {
    Text(Seq<char>),
    Json(JsonModel),
}

impl View for Body {
    type V = BodyModel;

    open spec fn view(&self) -> BodyModel {
        match self {
            Body::Text(text) => BodyModel::Text(text@),
            Body::Json(json) => BodyModel::Json(json@),
        }
    }
}

/// The answer to a request.
#[derive(Debug, PartialEq, Eq)]
pub struct Response {
    pub status: u16,
    pub body: Body,
}

/// An answer, as mathematical values.
pub struct ResponseModel {
    pub status: u16,
    pub body: BodyModel,
}

impl View for Response {
    type V = ResponseModel;

    open spec fn view(&self) -> ResponseModel {
        ResponseModel { status: self.status, body: self.body@ }
    }
}

/// The answer that carries a JSON document.
pub open spec fn ok_json(json: JsonModel) -> ResponseModel {
    ResponseModel { status: 200, body: BodyModel::Json(json) }
}

/// The answer that carries a message.
pub open spec fn message(status: u16, text: Seq<char>) -> ResponseModel {
    ResponseModel { status, body: BodyModel::Text(text) }
}

/// Status 200 with a JSON document.
pub fn _200(json: JsonValue) -> (response: Response)
    ensures
        response@ == ok_json(json@),
{
    Response { status: 200, body: Body::Json(json) }
}

/// Status 400 with a message.
pub fn _400(text: String) -> (response: Response)
    ensures
        response@ == message(400, text@),
{
    Response { status: 400, body: Body::Text(text) }
}

/// Status 404 with a message.
pub fn _404(text: String) -> (response: Response)
    ensures
        response@ == message(404, text@),
{
    Response { status: 404, body: Body::Text(text) }
}

/// Status 500 with a message.
pub fn _500(text: String) -> (response: Response)
    ensures
        response@ == message(500, text@),
{
    Response { status: 500, body: Body::Text(text) }
}

/// The name of a query parameter.
pub open spec fn param_name(param: Param) -> Seq<char> {
    match param {
        Param::Page => "page"@,
        Param::Slag => "slag"@,
        Param::Tag => "tag"@,
        Param::Query => "query"@,
    }
}

/// What a caller is told about a failure. A request that is at fault gets
/// status 400 and a message that names the parameter; records that break
/// what the listing relies on get status 500.
pub open spec fn failure(error: Error) -> ResponseModel {
    match error {
        Error::MissingParameter(param) => message(
            400,
            "`"@ + param_name(param) + "` query param is not found."@,
        ),
        Error::InvalidPage => message(400, "`page` query param is not a page number."@),
        Error::TagListsDiffer => message(500, "A record has tags without search tags."@),
        Error::MissingField => message(500, "A record lacks a field."@),
        Error::UnsupportedAttribute => message(500, "A record holds an unsupported attribute."@),
    }
}

/// The answer that tells a caller about a failure.
pub fn error_response(error: Error) -> (response: Response)
    ensures
        response@ == failure(error),
{
    match error {
        Error::MissingParameter(param) => {
            let name = match param {
                Param::Page => "page",
                Param::Slag => "slag",
                Param::Tag => "tag",
                Param::Query => "query",
            };
            let mut text = "`".to_owned();
            text.append(name);
            text.append("` query param is not found.");
            _400(text)
        },
        Error::InvalidPage => _400("`page` query param is not a page number.".to_owned()),
        Error::TagListsDiffer => _500("A record has tags without search tags.".to_owned()),
        Error::MissingField => _500("A record lacks a field.".to_owned()),
        Error::UnsupportedAttribute => _500("A record holds an unsupported attribute.".to_owned()),
    }
}

} // verus!
