use base64::{engine::general_purpose, Engine};
use wxrust::auth::{
    build_login_request, claims_from, decode_token, parse_credentials, token_of, token_payload,
    AuthError, Claims,
};
use wxrust::models::{GraphQLError, GraphQLResponse, LoginData, LoginVariables};

#[test]
fn test_decode_token_valid() {
    let header = general_purpose::URL_SAFE_NO_PAD.encode(r#"{"alg":"HS256","typ":"JWT"}"#.as_bytes());
    let payload = general_purpose::URL_SAFE_NO_PAD.encode(r#"{"id":123,"exp":2000000000}"#.as_bytes());
    let signature = "dummy_signature";
    let token = format!("{}.{}.{}", header, payload, signature);

    let claims = decode_token(&token).unwrap();
    assert_eq!(claims.id, 123);
    assert_eq!(claims.exp, 2000000000);
}

#[test]
fn test_decode_token_invalid_format() {
    let token = "invalid.token";
    let result = decode_token(token);
    assert!(result.is_err());
}

#[test]
fn test_decode_token_invalid_base64() {
    let token = "header.invalid.signature";
    let result = decode_token(token);
    assert!(result.is_err());
}

#[test]
fn test_decode_token_invalid_json() {
    let header = general_purpose::URL_SAFE_NO_PAD.encode("{}".as_bytes());
    let payload = general_purpose::URL_SAFE_NO_PAD.encode("invalid json".as_bytes());
    let signature = "sig";
    let token = format!("{}.{}.{}", header, payload, signature);
    let result = decode_token(&token);
    assert!(result.is_err());
}

fn token_with(claims: &str) -> String {
    format!("h.{}.s", general_purpose::URL_SAFE_NO_PAD.encode(claims.as_bytes()))
}

#[test]
fn test_decode_token_error_kinds() {
    assert_eq!(decode_token("invalid_token"), Err(AuthError::TokenFormat));
    assert_eq!(decode_token("invalid.token"), Err(AuthError::TokenFormat));
    assert_eq!(decode_token("a.b.c.d"), Err(AuthError::TokenFormat));
    assert_eq!(decode_token(""), Err(AuthError::TokenFormat));
    assert_eq!(decode_token("header.invalid.signature"), Err(AuthError::TokenEncoding));
    assert_eq!(decode_token("header.a b.signature"), Err(AuthError::TokenEncoding));
    assert_eq!(decode_token("header.e30=.signature"), Err(AuthError::TokenEncoding));
    assert_eq!(decode_token(&token_with("invalid json")), Err(AuthError::TokenClaims));
    assert_eq!(decode_token(&token_with("{}")), Err(AuthError::TokenClaims));
    assert_eq!(decode_token(&token_with(r#"{"id":1}"#)), Err(AuthError::TokenClaims));
    assert_eq!(decode_token(&token_with(r#"{"exp":1}"#)), Err(AuthError::TokenClaims));
    assert_eq!(decode_token(&token_with(r#"{"id":-1,"exp":1}"#)), Err(AuthError::TokenClaims));
    assert_eq!(decode_token(&token_with(r#"{"id":"1","exp":1}"#)), Err(AuthError::TokenClaims));
    assert_eq!(decode_token(&token_with(r#"{"id":1.5,"exp":1}"#)), Err(AuthError::TokenClaims));
    assert_eq!(
        decode_token(&token_with(r#"{"id":4294967296,"exp":1}"#)),
        Err(AuthError::TokenClaims)
    );
    assert_eq!(decode_token(".."), Err(AuthError::TokenClaims));
}

#[test]
fn test_decode_token_reads_both_members() {
    assert_eq!(
        decode_token(&token_with(r#"{"exp":18446744073709551615,"name":"x","id":4294967295}"#)),
        Ok(Claims { id: u32::MAX, exp: u64::MAX })
    );
    assert_eq!(decode_token(&token_with(r#" { "id" : 0 , "exp" : 0 } "#)), Ok(Claims { id: 0, exp: 0 }));
}

#[test]
fn test_token_payload() {
    assert_eq!(token_payload(&token_with("{\"id\":123}")), Ok(b"{\"id\":123}".to_vec()));
    assert_eq!(token_payload("a.aGVsbG8.c"), Ok(b"hello".to_vec()));
    assert_eq!(token_payload("a.-_8.c"), Ok(vec![0xfb, 0xff]));
    assert_eq!(token_payload("a..c"), Ok(vec![]));
    assert_eq!(token_payload(".aGVsbG8."), Ok(b"hello".to_vec()));
    assert_eq!(token_payload("a.+/8.c"), Err(AuthError::TokenEncoding));
    assert_eq!(token_payload("aGVsbG8"), Err(AuthError::TokenFormat));
    assert_eq!(token_payload("a.aGVsbG8"), Err(AuthError::TokenFormat));
    assert_eq!(token_payload("a.aGVsbG8.c."), Err(AuthError::TokenFormat));
}

#[test]
fn test_claims_from() {
    assert_eq!(claims_from(Some(123), Some(2000000000)), Ok(Claims { id: 123, exp: 2000000000 }));
    assert_eq!(claims_from(Some(4294967295), Some(0)), Ok(Claims { id: u32::MAX, exp: 0 }));
    assert_eq!(claims_from(Some(4294967296), Some(0)), Err(AuthError::TokenClaims));
    assert_eq!(claims_from(None, Some(0)), Err(AuthError::TokenClaims));
    assert_eq!(claims_from(Some(0), None), Err(AuthError::TokenClaims));
    assert_eq!(claims_from(None, None), Err(AuthError::TokenClaims));
}

#[test]
fn test_claims_is_fresh() {
    let claims = Claims { id: 1, exp: 2000000000 };
    assert!(claims.is_fresh(1999999999));
    assert!(!claims.is_fresh(2000000000));
    assert!(!claims.is_fresh(2000000001));
    assert!(claims.is_fresh(0));
    assert!(!Claims { id: 1, exp: 0 }.is_fresh(0));
}

fn credentials(contents: &str) -> Result<(String, String), AuthError> {
    parse_credentials(contents).map(|v| (v.u, v.p))
}

#[test]
fn test_parse_credentials() {
    let expected = Ok(("email@example.com".to_string(), "password".to_string()));
    assert_eq!(credentials("email@example.com\npassword"), expected);
    assert_eq!(credentials("email@example.com\npassword\n"), expected);
    assert_eq!(credentials("email@example.com\r\npassword\r\n"), expected);
    assert_eq!(credentials("email@example.com\npassword\nmore\nlines"), expected);
}

#[test]
fn test_parse_credentials_line_ends() {
    assert_eq!(credentials("a\n\n"), Ok(("a".to_string(), String::new())));
    assert_eq!(credentials("\n\n"), Ok((String::new(), String::new())));
    assert_eq!(credentials("\nb"), Ok((String::new(), "b".to_string())));
    // a carriage return goes with the line feed after it only
    assert_eq!(credentials("a\r\nb\r"), Ok(("a".to_string(), "b\r".to_string())));
    assert_eq!(credentials("a\r\r\nb"), Ok(("a\r".to_string(), "b".to_string())));
    assert_eq!(credentials("\r\n\r\n"), Ok((String::new(), String::new())));
}

#[test]
fn test_parse_credentials_too_few_lines() {
    assert_eq!(credentials(""), Err(AuthError::TooFewLines));
    assert_eq!(credentials("email@example.com"), Err(AuthError::TooFewLines));
    assert_eq!(credentials("email@example.com\n"), Err(AuthError::TooFewLines));
    assert_eq!(credentials("email@example.com\r\n"), Err(AuthError::TooFewLines));
    assert_eq!(credentials("\n"), Err(AuthError::TooFewLines));
}

#[test]
fn test_build_login_request() {
    let request = build_login_request(LoginVariables {
        u: "user".to_string(),
        p: "pass".to_string(),
    });
    assert_eq!(request.query, "mutation login($u: String!, $p: String!) { login(u: $u, p: $p) }");
    assert_eq!(request.variables.u, "user");
    assert_eq!(request.variables.p, "pass");
}

#[test]
fn test_token_of() {
    let response = GraphQLResponse {
        data: Some(LoginData { login: "token".to_string() }),
        errors: None,
    };
    assert_eq!(token_of(response), Ok("token".to_string()));
    // a payload counts, whatever the error records say
    let response = GraphQLResponse {
        data: Some(LoginData { login: "token".to_string() }),
        errors: Some(vec![GraphQLError { message: "warning".to_string() }]),
    };
    assert_eq!(token_of(response), Ok("token".to_string()));
}

#[test]
fn test_token_of_errors() {
    let response = GraphQLResponse {
        data: None,
        errors: Some(vec![
            GraphQLError { message: "Invalid credentials".to_string() },
            GraphQLError { message: "try again".to_string() },
        ]),
    };
    let result = token_of(response);
    assert_eq!(result, Err(AuthError::Remote("Invalid credentials; try again".to_string())));
    assert!(result.unwrap_err().message().contains("Invalid credentials"));
    let response: GraphQLResponse<LoginData> = GraphQLResponse { data: None, errors: None };
    assert_eq!(token_of(response), Err(AuthError::Unexpected));
}

#[test]
fn test_auth_error_messages() {
    assert_eq!(
        AuthError::TooFewLines.message(),
        "credentials must have at least 2 lines: email and password"
    );
    assert_eq!(AuthError::Remote("a; b".to_string()).message(), "a; b");
    assert_eq!(AuthError::Unexpected.message(), "Unexpected response");
    assert_eq!(AuthError::TokenFormat.message(), "Invalid token format");
    assert_eq!(AuthError::TokenEncoding.message(), "Invalid token encoding");
    assert_eq!(AuthError::TokenClaims.message(), "Invalid token claims");
}
