//! Where snippets come from: public gists, or files of public repositories.
use vstd::prelude::*;
use vstd::string::StringExecFns;
use ureq::{Agent, Request};

pub mod gists;
pub mod repos;

verus! {

#[verifier::external_type_specification]
#[verifier::external_body]
pub struct ExAgent(Agent);

#[verifier::external_type_specification]
#[verifier::external_body]
pub struct ExRequest(Request);

/// The code host's API.
pub const GITHUB_BASE_URL: &'static str = "https://api.github.com";

/// A snippet for one round: its text and the language it is written in.
pub struct CodeData {
    pub code: String,
    pub language: String,
}

/// Strings in lexicographic order of their characters, which is the order
/// of their UTF-8 bytes.
pub open spec fn text_lt(a: Seq<char>, b: Seq<char>) -> bool
    decreases a.len(),
{
    if a.len() == 0 {
        b.len() > 0
    } else if b.len() == 0 {
        false
    } else if a[0] != b[0] {
        (a[0] as u32) < (b[0] as u32)
    } else {
        text_lt(a.drop_first(), b.drop_first())
    }
}

/// No string comes before itself, and of two strings at most one comes first.
pub proof fn lemma_text_lt_asymmetric(a: Seq<char>, b: Seq<char>)
    ensures
        !text_lt(a, a),
        text_lt(a, b) ==> !text_lt(b, a),
    decreases a.len(),
{
    if a.len() > 0 {
        lemma_text_lt_asymmetric(a.drop_first(), a.drop_first());
        if b.len() > 0 {
            lemma_text_lt_asymmetric(a.drop_first(), b.drop_first());
        }
    }
}

/// Relies on BTreeMap::into_iter: every entry of the map, sorted by key.
#[verifier::external_body]
pub(crate) fn entries_in_key_order<V>(m: std::collections::BTreeMap<String, V>) -> (r: Vec<(String, V)>)
    ensures
        r.len() == m@.dom().len(),
        forall|i: int| 0 <= i < r.len() ==> #[trigger] m@.contains_key(r@[i].0) && m@[r@[i].0] == r@[i].1,
        forall|i: int, j: int| 0 <= i < j < r.len() ==> text_lt((#[trigger] r@[i]).0@, (#[trigger] r@[j]).0@),
        forall|k: String| #[trigger] m@.contains_key(k) ==> exists|i: int| 0 <= i < r.len() && r@[i].0 == k,
{
    m.into_iter().collect()
}

/// Relies on ureq's Request::set: the request with a header set to a value.
#[verifier::external_body]
fn set_header(request: Request, header: &str, value: &str) -> Request {
    request.set(header, value)
}

/// The value of the authorization header for `token`.
pub fn bearer(token: &str) -> (r: String)
    ensures
        r@ == "Bearer "@ + token@,
{
    let mut r = String::from_str("Bearer ");
    r.append(token);
    r
}

/// Requests that can carry an access token.
pub trait AuthenticationExt: Sized {
    /// The request, sent with `token` when there is one.
    fn with_authentication(self, token: Option<&str>) -> Self;
}

impl AuthenticationExt for Request {
    fn with_authentication(self, token: Option<&str>) -> Request {
        match token {
            Some(token) => {
                let value = bearer(token);
                set_header(self, "Authorization", value.as_str())
            },
            None => self,
        }
    }
}

} // verus!
