//! The two responses of the service: the page with the form, and the answer
//! to a submitted pair of numbers.

use crate::decimal::{decimal_string, decimal_text};
use crate::euclid::gcd_of;
use crate::form::GcdParameters;
use crate::validate::{checked_gcd, ZERO_INPUT_MESSAGE};
use vstd::prelude::*;

verus! {

/// The media type of every response.
pub const HTML: &'static str = "text/html";

/// The page that offers the form.
pub const INDEX_PAGE: &'static str =
    "\n        <title>GCD Calculator</title>\n        <form action=\"/gcd\" method=\"post\">\n        <input type=\"text\" name=\"n\" />\n        <input type=\"text\" name=\"m\" />\n        <button type=\"submit\">Compute GCD</button>\n        ";

/// The outcome that a response reports.
#[derive(Clone, Copy, Debug, PartialEq, Eq, Structural)]
pub enum Status {
    /// The request was served.
    Success,
    /// The request was refused for what it held.
    BadRequest,
}

impl Status {
    /// The HTTP status code of the outcome.
    pub open spec fn spec_code(self) -> u16 {
        match self {
            Status::Success => 200,
            Status::BadRequest => 400,
        }
    }

    /// The HTTP status code of the outcome.
    #[verifier::when_used_as_spec(spec_code)]
    pub fn code(self) -> (c: u16)
        ensures
            c == self.spec_code(),
    {
        match self {
            Status::Success => 200,
            Status::BadRequest => 400,
        }
    }
}

/// A response, as the plain values that a server sends.
#[derive(Debug)]
pub struct Response {
    pub status: Status,
    pub content_type: String,
    pub body: String,
}

impl Response {
    /// The response is an HTML document with this status and this text.
    pub open spec fn is_html(self, status: Status, body: Seq<char>) -> bool {
        &&& self.status == status
        &&& self.content_type@ == HTML@
        &&& self.body@ == body
    }
}

/// The sentence that reports `g` as the greatest common divisor of `n` and `m`.
pub open spec fn answer_text(n: u64, m: u64, g: u64) -> Seq<char> {
    "The greatest common divisor of the numbers "@ + decimal_text(n as nat) + " and "@
        + decimal_text(m as nat) + " is <b>"@ + decimal_text(g as nat) + "</b>"@
}

/// Answers a request for the front page.
pub fn get_index() -> (r: Response)
    ensures
        r.is_html(Status::Success, INDEX_PAGE@),
{
    Response {
        status: Status::Success,
        content_type: String::from_str(HTML),
        body: String::from_str(INDEX_PAGE),
    }
}

/// Answers a submitted pair of numbers: with their greatest common divisor
/// where both are positive, with a refusal where one is zero.
pub fn post_gcd(form: GcdParameters) -> (r: Response)
    ensures
        (form.n == 0 || form.m == 0) ==> r.is_html(Status::BadRequest, ZERO_INPUT_MESSAGE@),
        (form.n != 0 && form.m != 0) ==> r.is_html(
            Status::Success,
            answer_text(form.n, form.m, gcd_of(form.n as int, form.m as int) as u64),
        ),
{
    match checked_gcd(form.n, form.m) {
        Err(e) => Response {
            status: Status::BadRequest,
            content_type: String::from_str(HTML),
            body: e.message(),
        },
        Ok(g) => {
            let mut body = String::from_str("The greatest common divisor of the numbers ");
            body.append(decimal_string(form.n).as_str());
            body.append(" and ");
            body.append(decimal_string(form.m).as_str());
            body.append(" is <b>");
            body.append(decimal_string(g).as_str());
            body.append("</b>");
            Response { status: Status::Success, content_type: String::from_str(HTML), body }
        },
    }
}

} // verus!
