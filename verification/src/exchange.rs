//! One HTTP exchange: the method that goes out and what is kept of the response.
use crate::text::{join3, text_of};
use vstd::prelude::*;
use vstd::utf8::{decode_utf8, encode_utf8, valid_utf8};

verus! {

/// `reqwest::Method`, the method of an HTTP request.
#[verifier::external_type_specification]
#[verifier::external_body]
pub struct ExMethod(reqwest::Method);

/// The bytes of the name of a `reqwest::Method`.
pub uninterp spec fn method_bytes(m: reqwest::Method) -> Seq<u8>;

/// The text that `String::from_utf8_lossy` makes of bytes.
pub uninterp spec fn lossy_text(bytes: Seq<u8>) -> Seq<char>;

/// The bytes that a method can be made of: letters, digits and the other `tchar`s of
/// RFC 9110.
pub open spec fn token_byte(b: u8) -> bool {
    ||| 65 <= b <= 90
    ||| 97 <= b <= 122
    ||| 48 <= b <= 57
    ||| b == 33
    ||| 35 <= b <= 39
    ||| b == 42
    ||| b == 43
    ||| b == 45
    ||| b == 46
    ||| 94 <= b <= 96
    ||| b == 124
    ||| b == 126
}

/// Whether the bytes name an HTTP method.
pub open spec fn is_token(bytes: Seq<u8>) -> bool {
    bytes.len() > 0 && forall|i: int| 0 <= i < bytes.len() ==> token_byte(#[trigger] bytes[i])
}

/// `reqwest::Method::from_bytes`: the method of that name, where the bytes are a token.
#[verifier::external_body]
fn method_from_bytes(bytes: &[u8]) -> (r: Option<reqwest::Method>)
    ensures
        r is Some <==> is_token(bytes@),
        r is Some ==> method_bytes(r->Some_0) == bytes@,
{
    reqwest::Method::from_bytes(bytes).ok()
}

/// `String::from_utf8_lossy`: the text of valid UTF-8; elsewhere what is not valid is
/// replaced.
#[verifier::external_body]
fn text_from_utf8_lossy(bytes: &[u8]) -> (r: String)
    ensures
        r@ == lossy_text(bytes@),
        valid_utf8(bytes@) ==> r@ == decode_utf8(bytes@),
{
    String::from_utf8_lossy(bytes).into_owned()
}

/// The method of a request, or that there is none of that name.
pub fn request_method(method: &str) -> (r: Result<reqwest::Method, String>)
    ensures
        match r {
            Ok(m) => is_token(encode_utf8(method@)) && method_bytes(m) == encode_utf8(method@),
            Err(e) => !is_token(encode_utf8(method@)) && e@ == "invalid HTTP method '"@ + method@
                + "'"@,
        },
{
    match method_from_bytes(method.as_bytes()) {
        Some(m) => Ok(m),
        None => Err(join3("invalid HTTP method '", method, "'")),
    }
}

/// What came of an exchange.
#[derive(Debug, Clone)]
pub struct HttpOutcome {
    pub status: u16,
    pub content_type: Option<String>,
    pub body_text: String,
    pub body_truncated: bool,
    pub duration_ms: u128,
}

/// What an outcome is.
pub struct HttpOutcomeView {
    pub status: u16,
    pub content_type: Option<Seq<char>>,
    pub body_text: Seq<char>,
    pub body_truncated: bool,
    pub duration_ms: u128,
}

impl View for HttpOutcome {
    type V = HttpOutcomeView;

    open spec fn view(&self) -> HttpOutcomeView {
        HttpOutcomeView {
            status: self.status,
            content_type: text_of(self.content_type),
            body_text: self.body_text@,
            body_truncated: self.body_truncated,
            duration_ms: self.duration_ms,
        }
    }
}

impl HttpOutcomeView {
    /// Whether the status is a success.
    pub open spec fn succeeded(self) -> bool {
        self.status / 100 == 2
    }
}

/// An outcome, or the wording of why there was no response.
pub open spec fn outcome_of(r: Result<HttpOutcome, String>) -> Result<
    HttpOutcomeView,
    Seq<char>,
> {
    match r {
        Ok(out) => Ok(out@),
        Err(e) => Err(e@),
    }
}

/// The part of a body that is kept.
pub open spec fn kept(body: Seq<u8>, max_response_bytes: nat) -> Seq<u8> {
    if body.len() > max_response_bytes {
        body.take(max_response_bytes as int)
    } else {
        body
    }
}

/// What is kept of a response: its body up to `max_response_bytes`, and whether there was
/// more.
pub fn keep_response(
    status: u16,
    content_type: Option<String>,
    body: &[u8],
    max_response_bytes: usize,
    duration_ms: u128,
) -> (r: HttpOutcome)
    ensures
        r@ == (HttpOutcomeView {
            status,
            content_type: text_of(content_type),
            body_text: lossy_text(kept(body@, max_response_bytes as nat)),
            body_truncated: body@.len() > max_response_bytes,
            duration_ms,
        }),
        valid_utf8(kept(body@, max_response_bytes as nat)) ==> r@.body_text == decode_utf8(
            kept(body@, max_response_bytes as nat),
        ),
{
    let body_truncated = body.len() > max_response_bytes;
    let body_text = if body_truncated {
        let part = vstd::slice::slice_subrange(body, 0, max_response_bytes);
        assert(part@ =~= kept(body@, max_response_bytes as nat));
        text_from_utf8_lossy(part)
    } else {
        text_from_utf8_lossy(body)
    };
    HttpOutcome { status, content_type, body_text, body_truncated, duration_ms }
}

}
