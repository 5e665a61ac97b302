//! The authorizer: a caller is let in if its token is the hexadecimal
//! SHA-256 digest of the shared key.

use crate::text::same_text;
use vstd::prelude::*;
use vstd::string::*;
use vstd::utf8::encode_utf8;

verus! {

/// What the authorizer is asked: the token that the caller presented, and the
/// method that it wants to invoke.
#[derive(Clone, Debug, PartialEq, Eq)]
pub struct Request {
    pub authorization_token: String,
    pub method_arn: String,
}

/// The answer of the authorizer: a policy for one principal.
#[derive(Clone, Debug, PartialEq, Eq)]
pub struct PolicyStatement {
    pub principal_id: String,
    pub policy_document: PolicyDocument,
}

#[derive(Clone, Debug, PartialEq, Eq)]
pub struct PolicyDocument {
    pub version: String,
    pub statement: Vec<Statement>,
}

#[derive(Clone, Debug, PartialEq, Eq)]
pub struct Statement {
    pub action: String,
    pub effect: String,
    pub resource: String,
}

/// A statement, as texts.
pub struct StatementModel {
    pub action: Seq<char>,
    pub effect: Seq<char>,
    pub resource: Seq<char>,
}

/// A policy, as texts.
pub struct PolicyModel {
    pub principal_id: Seq<char>,
    pub version: Seq<char>,
    pub statement: Seq<StatementModel>,
}

impl View for Statement {
    type V = StatementModel;

    open spec fn view(&self) -> StatementModel {
        StatementModel { action: self.action@, effect: self.effect@, resource: self.resource@ }
    }
}

impl View for PolicyStatement {
    type V = PolicyModel;

    open spec fn view(&self) -> PolicyModel {
        PolicyModel {
            principal_id: self.principal_id@,
            version: self.policy_document.version@,
            statement: Seq::new(
                self.policy_document.statement@.len(),
                |i: int| self.policy_document.statement@[i]@,
            ),
        }
    }
}

/// The policy that gives `effect` on invoking `resource` to every principal.
pub open spec fn policy_for(effect: Seq<char>, resource: Seq<char>) -> PolicyModel {
    PolicyModel {
        principal_id: "*"@,
        version: "2012-10-17"@,
        statement: seq![StatementModel { action: "execute-api:Invoke"@, effect, resource }],
    }
}

/// Builds the policy that gives `effect` on the method that `event` names.
pub fn result(effect: &str, event: Request) -> (policy: PolicyStatement)
    ensures
        policy@ == policy_for(effect@, event.method_arn@),
{
    let mut statement: Vec<Statement> = Vec::new();
    statement.push(
        Statement {
            action: "execute-api:Invoke".to_owned(),
            effect: effect.to_owned(),
            resource: event.method_arn,
        },
    );
    let policy = PolicyStatement {
        principal_id: "*".to_owned(),
        policy_document: PolicyDocument { version: "2012-10-17".to_owned(), statement },
    };
    assert(policy@.statement =~= policy_for(effect@, event.method_arn@).statement);
    policy
}

/// The SHA-256 digest of a message.
pub uninterp spec fn sha256_of(message: Seq<u8>) -> Seq<u8>;

/// `sha2::Sha256` through `new`, `update` and `finalize` of `sha2::Digest`:
/// the digest of `message`.
#[verifier::external_body]
fn sha256(message: &[u8]) -> (digest: Vec<u8>)
    ensures
        digest@ == sha256_of(message@),
{
    let mut hasher = <sha2::Sha256 as sha2::Digest>::new();
    sha2::Digest::update(&mut hasher, message);
    sha2::Digest::finalize(hasher).to_vec()
}

/// The lower-case hexadecimal digit for a number below 16.
pub open spec fn hex_digit(n: int) -> char
    recommends
        0 <= n < 16,
{
    if n < 10 {
        ('0' as u8 + n) as u8 as char
    } else {
        ('a' as u8 + n - 10) as u8 as char
    }
}

/// The bytes written in lower-case hexadecimal, two digits each, the high
/// half of a byte first.
pub open spec fn hex_lower(bytes: Seq<u8>) -> Seq<char> {
    Seq::new(
        2 * bytes.len(),
        |i: int|
            if i % 2 == 0 {
                hex_digit(bytes[i / 2] as int / 16)
            } else {
                hex_digit(bytes[i / 2] as int % 16)
            },
    )
}

/// `hex::encode`: the bytes in lower-case hexadecimal, two digits for each.
#[verifier::external_body]
fn hex_encode(bytes: &[u8]) -> (text: String)
    ensures
        text@ == hex_lower(bytes@),
{
    hex::encode(bytes)
}

/// The token that lets a caller in: the SHA-256 digest of the UTF-8 bytes of
/// the key, in lower-case hexadecimal.
pub open spec fn token_for(key: Seq<char>) -> Seq<char> {
    hex_lower(sha256_of(encode_utf8(key)))
}

/// Computes the token that belongs to `key`.
pub fn expected_token(key: &str) -> (token: String)
    ensures
        token@ == token_for(key@),
{
    let digest = sha256(key.as_bytes());
    hex_encode(digest.as_slice())
}

/// The answer to `payload` when `expected` is the token that lets a caller
/// in: `Allow` for exactly that token, `Deny` for any other.
pub fn decide(payload: Request, expected: &str) -> (policy: PolicyStatement)
    ensures
        policy@ == policy_for(
            if payload.authorization_token@ == expected@ {
                "Allow"@
            } else {
                "Deny"@
            },
            payload.method_arn@,
        ),
{
    if same_text(payload.authorization_token.as_str(), expected) {
        result("Allow", payload)
    } else {
        result("Deny", payload)
    }
}

/// Answers a request when the shared key is `unhashed_key`.
pub fn lambda_handler(payload: Request, unhashed_key: &str) -> (policy: PolicyStatement)
    ensures
        policy@ == policy_for(
            if payload.authorization_token@ == token_for(unhashed_key@) {
                "Allow"@
            } else {
                "Deny"@
            },
            payload.method_arn@,
        ),
{
    let expected = expected_token(unhashed_key);
    decide(payload, expected.as_str())
}

} // verus!
