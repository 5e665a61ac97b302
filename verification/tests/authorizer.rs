use blog_listing::authorizer::{
    decide, expected_token, lambda_handler, result, PolicyDocument, PolicyStatement, Request, Statement,
};

const ABC_DIGEST: &str = "ba7816bf8f01cfea414140de5dae2223b00361a396177a9cb410ff61f20015ad";
const EMPTY_DIGEST: &str = "e3b0c44298fc1c149afbf4c8996fb92427ae41e4649b934ca495991b7852b855";

fn asking(token: &str) -> Request {
    Request {
        authorization_token: token.to_string(),
        method_arn: "arn:aws:execute-api:eu-west-1:1:api/prod/GET/get-post".to_string(),
    }
}

fn policy(effect: &str) -> PolicyStatement {
    PolicyStatement {
        principal_id: "*".to_string(),
        policy_document: PolicyDocument {
            version: "2012-10-17".to_string(),
            statement: vec![Statement {
                action: "execute-api:Invoke".to_string(),
                effect: effect.to_string(),
                resource: "arn:aws:execute-api:eu-west-1:1:api/prod/GET/get-post".to_string(),
            }],
        },
    }
}

#[test]
fn result_builds_the_policy() {
    assert_eq!(result("Allow", asking("x")), policy("Allow"));
    assert_eq!(result("Deny", asking("x")), policy("Deny"));
}

#[test]
fn token_is_the_hex_digest_of_the_key() {
    assert_eq!(expected_token("abc"), ABC_DIGEST);
    assert_eq!(expected_token(""), EMPTY_DIGEST);
    assert_eq!(expected_token("abc").len(), 64);
}

#[test]
fn the_right_token_is_allowed() {
    assert_eq!(lambda_handler(asking(ABC_DIGEST), "abc"), policy("Allow"));
}

#[test]
fn any_other_token_is_denied() {
    assert_eq!(lambda_handler(asking("abc"), "abc"), policy("Deny"));
    assert_eq!(lambda_handler(asking(""), "abc"), policy("Deny"));
    assert_eq!(lambda_handler(asking(&ABC_DIGEST.to_uppercase()), "abc"), policy("Deny"));
    assert_eq!(lambda_handler(asking(EMPTY_DIGEST), "abc"), policy("Deny"));
}

#[test]
fn decide_compares_with_the_expected_token() {
    assert_eq!(decide(asking("secret"), "secret"), policy("Allow"));
    assert_eq!(decide(asking("secret"), "Secret"), policy("Deny"));
}
