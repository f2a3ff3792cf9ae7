//! The provider's OAuth surface that is pure computation: authorization
//! and event-query URL construction, and the decisions taken on token and
//! identity responses. The HTTP transport itself lives outside the
//! library; response bodies come in as text.

use vstd::prelude::*;
use vstd::string::StringExecFns;
use vstd::string::StrSliceExecFns;
use vstd::utf8::encode_utf8;

use crate::errors::OAuthError;
use crate::remote::opt_view;

verus! {

/// The fixed read-only calendar scope requested of the provider.
pub const GOOGLE_CALENDAR_SCOPE: &'static str = "https://www.googleapis.com/auth/calendar.readonly";

/// The uppercase hex digit character for a value in 0..16.
pub open spec fn hex_digit_upper(d: int) -> char {
    if d == 0 {
        '0'
    } else if d == 1 {
        '1'
    } else if d == 2 {
        '2'
    } else if d == 3 {
        '3'
    } else if d == 4 {
        '4'
    } else if d == 5 {
        '5'
    } else if d == 6 {
        '6'
    } else if d == 7 {
        '7'
    } else if d == 8 {
        '8'
    } else if d == 9 {
        '9'
    } else if d == 10 {
        'A'
    } else if d == 11 {
        'B'
    } else if d == 12 {
        'C'
    } else if d == 13 {
        'D'
    } else if d == 14 {
        'E'
    } else {
        'F'
    }
}

/// True when a byte passes through percent-encoding unescaped: the
/// alphanumerics and `-`, `_`, `.`, `~`.
pub open spec fn url_safe_byte(b: u8) -> bool {
    ||| 48 <= b <= 57
    ||| 65 <= b <= 90
    ||| 97 <= b <= 122
    ||| b == 45
    ||| b == 46
    ||| b == 95
    ||| b == 126
}

/// What one byte percent-encodes to: itself when safe, else a `%` escape
/// with two uppercase hex digits.
pub open spec fn pct_byte(b: u8) -> Seq<char> {
    if url_safe_byte(b) {
        seq![b as char]
    } else {
        seq!['%', hex_digit_upper(b as int / 16), hex_digit_upper(b as int % 16)]
    }
}

/// Percent-encoding of a byte sequence, byte by byte.
pub open spec fn pct_encoded(bytes: Seq<u8>) -> Seq<char>
    decreases bytes.len(),
{
    if bytes.len() == 0 {
        Seq::empty()
    } else {
        pct_byte(bytes[0]) + pct_encoded(bytes.drop_first())
    }
}

/// Relies on urlencoding::encode: percent-encodes every byte of the
/// string's UTF-8 form except alphanumerics and `-`, `_`, `.`, `~`, with
/// uppercase hex escapes.
#[verifier::external_body]
fn url_encode(s: &str) -> (r: String)
    ensures
        r@ == pct_encoded(encode_utf8(s@)),
{
    urlencoding::encode(s).into_owned()
}

/// The provider's authorization URL for the given client and redirect:
/// fixed endpoint and read-only scope, offline access, consent prompt,
/// with the redirect URI and scope percent-encoded.
pub open spec fn auth_url_of(client_id: Seq<char>, redirect_uri: Seq<char>) -> Seq<char> {
    "https://accounts.google.com/o/oauth2/v2/auth?client_id="@ + client_id + "&redirect_uri="@
        + pct_encoded(encode_utf8(redirect_uri)) + "&response_type=code&scope="@ + pct_encoded(
        encode_utf8(GOOGLE_CALENDAR_SCOPE@),
    ) + "&access_type=offline&prompt=consent"@
}

/// Builds the authorization URL, exactly `auth_url_of`.
pub fn get_google_auth_url(client_id: &str, redirect_uri: &str) -> (r: String)
    ensures
        r@ == auth_url_of(client_id@, redirect_uri@),
{
    let mut s = String::from_str("https://accounts.google.com/o/oauth2/v2/auth?client_id=");
    s.append(client_id);
    s.append("&redirect_uri=");
    let redirect = url_encode(redirect_uri);
    s.append(redirect.as_str());
    s.append("&response_type=code&scope=");
    let scope = url_encode(GOOGLE_CALENDAR_SCOPE);
    s.append(scope.as_str());
    s.append("&access_type=offline&prompt=consent");
    proof {
        assert(s@ =~= auth_url_of(client_id@, redirect_uri@));
    }
    s
}

/// The provider's event-listing URL for one calendar and time window,
/// each percent-encoded, single events ordered by start time.
pub open spec fn events_url_of(calendar_id: Seq<char>, time_min: Seq<char>, time_max: Seq<char>) -> Seq<char> {
    "https://www.googleapis.com/calendar/v3/calendars/"@ + pct_encoded(encode_utf8(calendar_id))
        + "/events?timeMin="@ + pct_encoded(encode_utf8(time_min)) + "&timeMax="@ + pct_encoded(
        encode_utf8(time_max),
    ) + "&singleEvents=true&orderBy=startTime"@
}

/// Builds the event-listing URL, exactly `events_url_of`.
pub fn events_request_url(calendar_id: &str, time_min: &str, time_max: &str) -> (r: String)
    ensures
        r@ == events_url_of(calendar_id@, time_min@, time_max@),
{
    let mut s = String::from_str("https://www.googleapis.com/calendar/v3/calendars/");
    let cal = url_encode(calendar_id);
    s.append(cal.as_str());
    s.append("/events?timeMin=");
    let min_enc = url_encode(time_min);
    s.append(min_enc.as_str());
    s.append("&timeMax=");
    let max_enc = url_encode(time_max);
    s.append(max_enc.as_str());
    s.append("&singleEvents=true&orderBy=startTime");
    proof {
        assert(s@ =~= events_url_of(calendar_id@, time_min@, time_max@));
    }
    s
}

/// The decision the token response owes: the access token is required and
/// returned as is; the refresh token is optional there and optional here.
pub fn token_response_from_fields(access_token: Option<String>, refresh_token: Option<String>) -> (r: Result<(String, Option<String>), OAuthError>)
    ensures
        match r {
            Ok(t) => access_token matches Some(a) && t.0 == a && t.1 == refresh_token,
            Err(e) => access_token is None && e matches OAuthError::MissingAccessToken,
        },
{
    match access_token {
        Some(a) => Ok((a, refresh_token)),
        None => Err(OAuthError::MissingAccessToken),
    }
}

/// The decision the identity response owes: the email field is required.
pub fn identity_from_field(email: Option<String>) -> (r: Result<String, OAuthError>)
    ensures
        match r {
            Ok(name) => email matches Some(e) && name == e,
            Err(e) => email is None && e matches OAuthError::MissingIdentity,
        },
{
    match email {
        Some(e) => Ok(e),
        None => Err(OAuthError::MissingIdentity),
    }
}

/// What the provider's token response carries, as a function of the body
/// text alone: nothing when the body is not JSON, else the optional
/// `access_token` and `refresh_token` string fields.
pub uninterp spec fn token_fields_of(body: Seq<char>) -> Option<
    (Option<Seq<char>>, Option<Seq<char>>),
>;

/// Relies on serde_json (from_str, Value::get, Value::as_str): reads the
/// `access_token` and `refresh_token` fields of a token response body.
/// The whole read is deterministic in the body text, and
/// `token_fields_of` names its result.
#[verifier::external_body]
fn read_token_fields(body: &str) -> (r: Option<(Option<String>, Option<String>)>)
    ensures
        match r {
            Some(f) => token_fields_of(body@) == Some((opt_view(f.0), opt_view(f.1))),
            None => token_fields_of(body@) is None,
        },
{
    let doc: serde_json::Value = match serde_json::from_str(body) {
        Ok(d) => d,
        Err(_) => return None,
    };
    let access = doc.get("access_token").and_then(|v| v.as_str()).map(|s| s.to_string());
    let refresh = doc.get("refresh_token").and_then(|v| v.as_str()).map(|s| s.to_string());
    Some((access, refresh))
}

/// What the provider's identity response carries, as a function of the
/// body text alone: nothing when the body is not JSON, else the optional
/// `email` string field.
pub uninterp spec fn email_field_of(body: Seq<char>) -> Option<Option<Seq<char>>>;

/// Relies on serde_json (from_str, Value::get, Value::as_str): reads the
/// `email` field of an identity response body; deterministic in the body
/// text, with `email_field_of` naming its result.
#[verifier::external_body]
fn read_email_field(body: &str) -> (r: Option<Option<String>>)
    ensures
        match r {
            Some(f) => email_field_of(body@) == Some(opt_view(f)),
            None => email_field_of(body@) is None,
        },
{
    let doc: serde_json::Value = match serde_json::from_str(body) {
        Ok(d) => d,
        Err(_) => return None,
    };
    Some(doc.get("email").and_then(|v| v.as_str()).map(|s| s.to_string()))
}

/// Parses a token-exchange response body: a body that is not JSON is a
/// protocol failure; a JSON body lacking the access-token field is
/// `MissingAccessToken`; any other JSON body succeeds with exactly the
/// fields `token_fields_of` names, per `token_response_from_fields`.
pub fn parse_token_response(body: &str) -> (r: Result<(String, Option<String>), OAuthError>)
    ensures
        match r {
            Ok(t) => token_fields_of(body@) matches Some(f) && f.0 == Some(t.0@) && f.1 == opt_view(
                t.1,
            ),
            Err(e) => match token_fields_of(body@) {
                Some(f) => f.0 is None && e matches OAuthError::MissingAccessToken,
                None => e matches OAuthError::Protocol(_),
            },
        },
{
    let fields = match read_token_fields(body) {
        Some(f) => f,
        None => {
            return Err(OAuthError::Protocol(String::from_str("malformed token response")));
        },
    };
    token_response_from_fields(fields.0, fields.1)
}

/// Parses an identity response body: a body that is not JSON is a
/// protocol failure; a JSON body lacking the email field is
/// `MissingIdentity`; any other JSON body succeeds with exactly the email
/// `email_field_of` names, per `identity_from_field`.
pub fn parse_identity_response(body: &str) -> (r: Result<String, OAuthError>)
    ensures
        match r {
            Ok(name) => email_field_of(body@) == Some(Some(name@)),
            Err(e) => match email_field_of(body@) {
                Some(f) => f is None && e matches OAuthError::MissingIdentity,
                None => e matches OAuthError::Protocol(_),
            },
        },
{
    let email = match read_email_field(body) {
        Some(f) => f,
        None => {
            return Err(OAuthError::Protocol(String::from_str("malformed identity response")));
        },
    };
    identity_from_field(email)
}

/// Character-for-character string equality, matching view equality.
pub fn str_eq(a: &str, b: &str) -> (r: bool)
    ensures
        r == (a@ == b@),
{
    let na = a.unicode_len();
    let nb = b.unicode_len();
    if na != nb {
        return false;
    }
    let mut i: usize = 0;
    while i < na
        invariant
            0 <= i <= na,
            na == a@.len(),
            na == b@.len(),
            forall|j: int| 0 <= j < i ==> a@[j] == b@[j],
        decreases na - i,
    {
        let ca = a.get_char(i);
        let cb = b.get_char(i);
        if ca != cb {
            return false;
        }
        i += 1;
    }
    proof {
        assert(a@ =~= b@);
    }
    true
}

} // verus!
