//! Logging in: the addresses to ask, the form to send, and what the answers
//! mean.

use crate::digits::{push_signed, signed_decimal};
use crate::text::{append_chars, chars_of, string_of};
use crate::{Credentials, Kindergarten};
use vstd::prelude::*;
use vstd::utf8::encode_utf8;

verus! {

/// The bytes that percent-encoding leaves as they are: ASCII letters and
/// digits, `-`, `.`, `_` and `~`.
pub open spec fn is_unreserved(b: u8) -> bool {
    ||| 0x30 <= b <= 0x39
    ||| 0x41 <= b <= 0x5A
    ||| 0x61 <= b <= 0x7A
    ||| b == 0x2D
    ||| b == 0x2E
    ||| b == 0x5F
    ||| b == 0x7E
}

/// The hexadecimal digit `d`, with the letters in uppercase.
pub open spec fn upper_hex(d: int) -> char {
    if d < 10 {
        (0x30 + d) as u8 as char
    } else {
        (0x41 + d - 10) as u8 as char
    }
}

/// A byte percent-encoded: itself where it is unreserved, else `%` and its
/// two hexadecimal digits.
pub open spec fn encoded_byte(b: u8) -> Seq<char> {
    if is_unreserved(b) {
        seq![b as char]
    } else {
        seq!['%', upper_hex(b as int / 16), upper_hex(b as int % 16)]
    }
}

/// Each of `bytes` percent-encoded, in order.
pub open spec fn encoded_bytes(bytes: Seq<u8>) -> Seq<char>
    decreases bytes.len(),
{
    if bytes.len() == 0 {
        Seq::empty()
    } else {
        encoded_byte(bytes[0]) + encoded_bytes(bytes.drop_first())
    }
}

/// `text` percent-encoded: every byte of its UTF-8 form, unless unreserved,
/// written as `%` and two hexadecimal digits.
pub open spec fn percent_encoded(text: Seq<char>) -> Seq<char> {
    encoded_bytes(encode_utf8(text))
}

/// `urlencoding::encode`. Claims what its documentation says: every byte of
/// the text is percent-encoded except ASCII letters and digits and `-`, `_`,
/// `.`, `~`; the hexadecimal digits are in uppercase.
#[verifier::external_body]
fn percent_encode(text: &str) -> (r: String)
    ensures
        r@ == percent_encoded(text@),
{
    urlencoding::encode(text).into_owned()
}

/// The address that names the kindergartens of an account.
pub open spec fn lookup_address(email: Seq<char>, password: Seq<char>) -> Seq<char> {
    "https://app.kidplan.com/Account/GetKinderGartenIds"@ + "?username="@ + percent_encoded(email)
        + "&password="@ + percent_encoded(password)
}

/// The address that logs in to the kindergarten `kid`.
pub open spec fn login_address(kid: int) -> Seq<char> {
    "https://app.kidplan.com/LogOn"@ + "?kid="@ + signed_decimal(kid)
}

/// The fields of the login form.
pub open spec fn login_fields(email: Seq<char>, password: Seq<char>) -> Seq<(Seq<char>, Seq<char>)> {
    seq![("UserName"@, email), ("Password"@, password), ("RememberMe"@, "true"@)]
}

/// What is said of an account without kindergartens.
pub open spec fn no_kindergartens() -> Seq<char> {
    "Login failed: no kindergarten IDs returned. Check credentials."@
}

/// The address to ask for the kindergartens of the account `creds`.
pub fn kindergarten_lookup_url(creds: &Credentials) -> (r: String)
    ensures
        r@ == lookup_address(creds.email@, creds.password@),
{
    let mut url = chars_of("https://app.kidplan.com/Account/GetKinderGartenIds");
    append_chars(&mut url, &chars_of("?username="));
    append_chars(&mut url, &chars_of(percent_encode(creds.email.as_str()).as_str()));
    append_chars(&mut url, &chars_of("&password="));
    append_chars(&mut url, &chars_of(percent_encode(creds.password.as_str()).as_str()));
    string_of(&url)
}

/// The address to send the login form for the kindergarten `kid_id` to.
pub fn login_url(kid_id: i64) -> (r: String)
    ensures
        r@ == login_address(kid_id as int),
{
    let mut url = chars_of("https://app.kidplan.com/LogOn");
    append_chars(&mut url, &chars_of("?kid="));
    push_signed(&mut url, kid_id);
    string_of(&url)
}

/// The login form for the account `creds`.
pub fn login_form(creds: &Credentials) -> (r: Vec<(String, String)>)
    ensures
        r.deep_view() == login_fields(creds.email@, creds.password@),
{
    let mut form: Vec<(String, String)> = Vec::new();
    form.push((String::from_str("UserName"), creds.email.clone()));
    form.push((String::from_str("Password"), creds.password.clone()));
    form.push((String::from_str("RememberMe"), String::from_str("true")));
    assert(form.deep_view() =~= login_fields(creds.email@, creds.password@));
    form
}

/// What came back when the kindergartens were asked for.
#[derive(Debug, Clone, PartialEq, Eq)]
pub enum LookupReply {
    /// The kindergartens of the account.
    Kindergartens { found: Vec<Kindergarten> },
    /// The server answered with a status that is no success.
    Refused { status: String },
    /// The request failed, or the answer could not be read.
    Broken { reason: String },
}

/// What came back when the login form was sent.
#[derive(Debug, Clone, PartialEq, Eq)]
pub enum LoginReply {
    /// The server answered with a success.
    Accepted,
    /// The server answered with a status that is no success.
    Refused { status: String },
    /// The request failed.
    Broken { reason: String },
}

/// The kindergartens of the account, or why there are none: an account
/// without any counts as a failed login.
pub fn lookup_outcome(reply: LookupReply) -> (r: Result<Vec<Kindergarten>, String>)
    ensures
        match reply {
            LookupReply::Kindergartens { found } => if found.len() == 0 {
                r matches Err(e) && e@ == no_kindergartens()
            } else {
                r == Ok::<Vec<Kindergarten>, String>(found)
            },
            LookupReply::Refused { status } => r matches Err(e) && e@
                == "Kindergarten lookup failed: "@ + status@,
            LookupReply::Broken { reason } => r matches Err(e) && e@ == reason@,
        },
{
    match reply {
        LookupReply::Kindergartens { found } => {
            if found.len() == 0 {
                Err(
                    String::from_str(
                        "Login failed: no kindergarten IDs returned. Check credentials.",
                    ),
                )
            } else {
                Ok(found)
            }
        },
        LookupReply::Refused { status } => {
            let mut error = chars_of("Kindergarten lookup failed: ");
            append_chars(&mut error, &chars_of(status.as_str()));
            Err(string_of(&error))
        },
        LookupReply::Broken { reason } => Err(reason),
    }
}

/// Whether the login went through, or why not.
pub fn login_outcome(reply: LoginReply) -> (r: Result<(), String>)
    ensures
        match reply {
            LoginReply::Accepted => r is Ok,
            LoginReply::Refused { status } => r matches Err(e) && e@ == "Login failed: "@
                + status@,
            LoginReply::Broken { reason } => r matches Err(e) && e@ == reason@,
        },
{
    match reply {
        LoginReply::Accepted => Ok(()),
        LoginReply::Refused { status } => {
            let mut error = chars_of("Login failed: ");
            append_chars(&mut error, &chars_of(status.as_str()));
            Err(string_of(&error))
        },
        LoginReply::Broken { reason } => Err(reason),
    }
}

} // verus!
