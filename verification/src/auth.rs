use crate::models::{GraphQLRequest, GraphQLResponse, LoginData, LoginVariables};
use crate::text::{chars_of, copy_range, find_char, index_of, string_of};
use crate::workouts::{error_text, join_messages};
use vstd::prelude::*;

verus! {

/// What a token says of itself: the user it was given to, and the second in
/// which it expires.
#[derive(Debug, Clone, Copy, PartialEq, Eq, Structural)]
pub struct Claims {
    pub id: u32,
    pub exp: u64,
}

impl Claims {
    /// Whether the token can still be used at `now`, in seconds since the
    /// epoch: it can until the second in which it expires.
    pub fn is_fresh(&self, now: u64) -> (fresh: bool)
        ensures
            fresh == (self.exp > now),
    {
        self.exp > now
    }
}

/// Why no token was to be had.
#[derive(Debug, Clone, PartialEq, Eq)]
pub enum AuthError {
    /// The credentials have fewer than two lines.
    TooFewLines,
    /// The service refused the login: the messages of its error records, with
    /// `; ` between them.
    Remote(String),
    /// The answer to the login holds neither a token nor an error record.
    Unexpected,
    /// The token does not have three parts.
    TokenFormat,
    /// The middle part of the token is no base64 text.
    TokenEncoding,
    /// The middle part of the token does not give the user and the expiry.
    TokenClaims,
}

impl AuthError {
    /// The text of the error.
    pub open spec fn text(self) -> Seq<char> {
        match self {
            AuthError::TooFewLines => "credentials must have at least 2 lines: email and password"@,
            AuthError::Remote(messages) => messages@,
            AuthError::Unexpected => "Unexpected response"@,
            AuthError::TokenFormat => "Invalid token format"@,
            AuthError::TokenEncoding => "Invalid token encoding"@,
            AuthError::TokenClaims => "Invalid token claims"@,
        }
    }

    /// The text of the error.
    pub fn message(&self) -> (s: String)
        ensures
            s@ == self.text(),
    {
        match self {
            AuthError::TooFewLines => "credentials must have at least 2 lines: email and password".to_owned(),
            AuthError::Remote(messages) => messages.clone(),
            AuthError::Unexpected => "Unexpected response".to_owned(),
            AuthError::TokenFormat => "Invalid token format".to_owned(),
            AuthError::TokenEncoding => "Invalid token encoding".to_owned(),
            AuthError::TokenClaims => "Invalid token claims".to_owned(),
        }
    }
}

/// The middle part of a token of three parts with a `.` between each two;
/// none where the token has fewer or more parts.
pub open spec fn payload_text(token: Seq<char>) -> Option<Seq<char>> {
    let first = index_of(token, '.', 0);
    let second = index_of(token, '.', first + 1);
    if first >= token.len() || second >= token.len() {
        None
    } else if index_of(token, '.', second + 1) < token.len() {
        None
    } else {
        Some(token.subrange(first + 1, second))
    }
}

/// The bytes that a text stands for in base64 with the URL-safe alphabet and
/// without padding; none where it is no such text.
pub uninterp spec fn base64url_decoded(text: Seq<char>) -> Option<Seq<u8>>;

#[verifier::external_type_specification]
#[verifier::external_body]
pub struct ExDecodeError(base64::DecodeError);

/// `base64::Engine::decode` with the engine
/// `base64::engine::general_purpose::URL_SAFE_NO_PAD`: the bytes that the text
/// stands for, or the crate's error where it stands for none.
#[verifier::external_body]
fn decode_base64url(text: &str) -> (res: Result<Vec<u8>, base64::DecodeError>)
    ensures
        match res {
            Ok(bytes) => base64url_decoded(text@) == Some(bytes@),
            Err(_) => base64url_decoded(text@) is None,
        },
{
    base64::Engine::decode(&base64::engine::general_purpose::URL_SAFE_NO_PAD, text)
}

/// The bytes of the claims of a token: its middle part, decoded.
///
/// A token has three parts with a `.` between each two; the middle part is
/// base64 text in the URL-safe alphabet, without padding.
pub fn token_payload(token: &str) -> (res: Result<Vec<u8>, AuthError>)
    ensures
        match payload_text(token@) {
            None => res == Err::<Vec<u8>, AuthError>(AuthError::TokenFormat),
            Some(text) => match base64url_decoded(text) {
                None => res == Err::<Vec<u8>, AuthError>(AuthError::TokenEncoding),
                Some(bytes) => res matches Ok(v) && v@ == bytes,
            },
        },
{
    let chars = chars_of(token);
    let n = chars.len();
    let first = find_char(&chars, '.', 0);
    if first >= n {
        return Err(AuthError::TokenFormat);
    }
    let second = find_char(&chars, '.', first + 1);
    if second >= n {
        return Err(AuthError::TokenFormat);
    }
    if find_char(&chars, '.', second + 1) < n {
        return Err(AuthError::TokenFormat);
    }
    let text = string_of(&copy_range(&chars, first + 1, second));
    match decode_base64url(text.as_str()) {
        Ok(bytes) => Ok(bytes),
        Err(_) => Err(AuthError::TokenEncoding),
    }
}

/// The number that the member `name` of a JSON object has, where `bytes` are
/// such an object and the member is a whole number that is not negative and
/// not above the largest of 64 bits; none otherwise.
pub uninterp spec fn json_u64_member(bytes: Seq<u8>, name: Seq<char>) -> Option<u64>;

/// `serde_json::from_slice` to a `serde_json::Value`, then `Value::get` with
/// `name` and `Value::as_u64` on what it gives: the member's number, or none
/// where one of the three gives none.
#[verifier::external_body]
fn json_number(bytes: &[u8], name: &str) -> (n: Option<u64>)
    ensures
        n == json_u64_member(bytes@, name@),
{
    let document: serde_json::Value = serde_json::from_slice(bytes).ok()?;
    document.get(name)?.as_u64()
}

/// The claims with the user `id` and the expiry `exp`, where both are given and
/// the user's number fits in 32 bits.
pub open spec fn claims_of(id: Option<u64>, exp: Option<u64>) -> Result<Claims, AuthError> {
    match (id, exp) {
        (Some(id), Some(exp)) => if id <= u32::MAX {
            Ok(Claims { id: id as u32, exp })
        } else {
            Err(AuthError::TokenClaims)
        },
        _ => Err(AuthError::TokenClaims),
    }
}

/// The claims with the user `id` and the expiry `exp`, where both are given and
/// the user's number fits in 32 bits.
pub fn claims_from(id: Option<u64>, exp: Option<u64>) -> (res: Result<Claims, AuthError>)
    ensures
        res == claims_of(id, exp),
{
    match (id, exp) {
        (Some(id), Some(exp)) => {
            if id <= u32::MAX as u64 {
                Ok(Claims { id: id as u32, exp })
            } else {
                Err(AuthError::TokenClaims)
            }
        },
        _ => Err(AuthError::TokenClaims),
    }
}

/// What a token says of itself.
pub open spec fn token_claims(token: Seq<char>) -> Result<Claims, AuthError> {
    match payload_text(token) {
        None => Err(AuthError::TokenFormat),
        Some(text) => match base64url_decoded(text) {
            None => Err(AuthError::TokenEncoding),
            Some(bytes) => claims_of(
                json_u64_member(bytes, "id"@),
                json_u64_member(bytes, "exp"@),
            ),
        },
    }
}

/// What a token says of itself: the numbers that the members `id` and `exp`
/// of its middle part have. The signature is not looked at.
pub fn decode_token(token: &str) -> (res: Result<Claims, AuthError>)
    ensures
        res == token_claims(token@),
{
    match token_payload(token) {
        Ok(bytes) => {
            let id = json_number(bytes.as_slice(), "id");
            let exp = json_number(bytes.as_slice(), "exp");
            claims_from(id, exp)
        },
        Err(e) => {
            proof {
                assert(e == AuthError::TokenFormat || e == AuthError::TokenEncoding);
            }
            Err(e)
        },
    }
}

/// The line that begins at `from`: the characters up to the next line feed,
/// without a carriage return that stands directly before that line feed.
pub open spec fn line_at(s: Seq<char>, from: int) -> Seq<char> {
    let end = index_of(s, '\n', from);
    if from < end < s.len() && s[end - 1] == '\r' {
        s.subrange(from, end - 1)
    } else {
        s.subrange(from, end)
    }
}

/// The first two lines of the credentials; none where there are fewer than
/// two lines.
pub open spec fn credentials_of(s: Seq<char>) -> Option<(Seq<char>, Seq<char>)> {
    let end = index_of(s, '\n', 0);
    if end + 1 >= s.len() {
        None
    } else {
        Some((line_at(s, 0), line_at(s, end + 1)))
    }
}

fn line_string(s: &Vec<char>, from: usize) -> (line: String)
    requires
        from <= s@.len(),
    ensures
        line@ == line_at(s@, from as int),
{
    let end = find_char(s, '\n', from);
    if from < end && end < s.len() && s[end - 1] == '\r' {
        string_of(&copy_range(s, from, end - 1))
    } else {
        string_of(&copy_range(s, from, end))
    }
}

/// The user name and the password of the credentials: their first and their
/// second line.
pub fn parse_credentials(contents: &str) -> (res: Result<LoginVariables, AuthError>)
    ensures
        match credentials_of(contents@) {
            Some((u, p)) => res matches Ok(v) && v.u@ == u && v.p@ == p,
            None => res == Err::<LoginVariables, AuthError>(AuthError::TooFewLines),
        },
{
    let chars = chars_of(contents);
    let end = find_char(&chars, '\n', 0);
    if end >= chars.len() || end + 1 >= chars.len() {
        return Err(AuthError::TooFewLines);
    }
    let u = line_string(&chars, 0);
    let p = line_string(&chars, end + 1);
    Ok(LoginVariables { u, p })
}

/// The text of the login request.
pub open spec fn login_query() -> Seq<char> {
    "mutation login($u: String!, $p: String!) { login(u: $u, p: $p) }"@
}

/// The login request for the credentials.
pub fn build_login_request(credentials: LoginVariables) -> (request: GraphQLRequest)
    ensures
        request.query@ == login_query(),
        request.variables == credentials,
{
    GraphQLRequest {
        query: "mutation login($u: String!, $p: String!) { login(u: $u, p: $p) }".to_owned(),
        variables: credentials,
    }
}

/// The token of an answer to a login. Where the answer has a payload, that is
/// the token; else its error records say why there is none.
pub fn token_of(response: GraphQLResponse<LoginData>) -> (res: Result<String, AuthError>)
    ensures
        match response.data {
            Some(data) => res == Ok::<String, AuthError>(data.login),
            None => match response.errors {
                Some(errors) => res matches Err(AuthError::Remote(m)) && m@ == error_text(errors@),
                None => res == Err::<String, AuthError>(AuthError::Unexpected),
            },
        },
{
    let GraphQLResponse { data, errors } = response;
    match data {
        Some(data) => Ok(data.login),
        None => match errors {
            Some(errors) => Err(AuthError::Remote(join_messages(&errors))),
            None => Err(AuthError::Unexpected),
        },
    }
}

} // verus!
