//! Where a request goes and what it says of itself.

use vstd::prelude::*;

verus! {

/// Where the list of models is asked for.
pub const MODELS_URL: &'static str = "https://api.openai.com/v1/models";

/// Where a completion is asked for.
pub const COMPLETIONS_URL: &'static str = "https://api.openai.com/v1/chat/completions";

/// The header lines of every request, in the order in which they are sent:
/// who asks, what the body is, and how the answer should come.
pub open spec fn header_lines(api_key: Seq<char>) -> Seq<Seq<char>> {
    seq![
        "Authorization: Bearer "@ + api_key,
        "Content-Type: application/json"@,
        "Accept: text/event-stream"@,
    ]
}

/// The texts of a run of lines, in order.
pub open spec fn lines_view(lines: Seq<String>) -> Seq<Seq<char>> {
    Seq::new(lines.len(), |i: int| lines[i]@)
}

/// The header lines of a request made with `api_key`.
pub fn request_headers(api_key: &str) -> (headers: Vec<String>)
    ensures
        lines_view(headers@) == header_lines(api_key@),
{
    let mut headers: Vec<String> = Vec::new();
    headers.push(String::from_str("Authorization: Bearer ").concat(api_key));
    headers.push(String::from_str("Content-Type: application/json"));
    headers.push(String::from_str("Accept: text/event-stream"));
    headers
}

} // verus!
