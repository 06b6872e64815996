//! Gists as the code host describes them, and access tokens.
use vstd::prelude::*;
use vstd::string::{StrSliceExecFns, StringExecFns};
use std::collections::BTreeMap;
use syntect::parsing::SyntaxSet;
use ureq::Agent;
use crate::game::{is_language, is_supported_language};
use crate::providers::{entries_in_key_order, lemma_text_lt_asymmetric, text_lt};

verus! {

/// What an access token looks like: forty hexadecimal digits, or "ghp_"
/// followed by 36 to 251 word characters.
pub const TOKEN_PATTERN: &'static str = r"[\da-f]{40}|ghp_\w{36,251}";

/// The compiled size the token pattern may take, in bytes.
pub const TOKEN_PATTERN_SIZE_LIMIT: usize = 33554432;

/// Whether `text` holds a match of the regular expression `pattern`.
pub uninterp spec fn regex_matches(pattern: Seq<char>, text: Seq<char>) -> bool;

/// `e` is an extension found in `name`: it holds no dot, and occurs in
/// `name` right after a dot.
pub open spec fn is_extension_in(e: Seq<char>, name: Seq<char>) -> bool {
    &&& !e.contains('.')
    &&& exists|i: int| 0 <= i && i + e.len() + 1 <= name.len() && #[trigger] name.subrange(i, i + e.len() + 1) == seq!['.'] + e
}

/// Relies on regex's RegexBuilder (with a size limit) and Regex::is_match:
/// whether `text` holds a match of `pattern`; None when the pattern is refused.
#[verifier::external_body]
fn pattern_matches(pattern: &str, size_limit: usize, text: &str) -> (r: Option<bool>)
    ensures
        r matches Some(b) ==> b == regex_matches(pattern@, text@),
{
    regex::RegexBuilder::new(pattern).size_limit(size_limit).build().ok().map(|re| re.is_match(text))
}

/// Relies on std's Path::extension and OsStr::to_str: the extension of a file
/// name, when it has one that is valid text.
#[verifier::external_body]
fn file_extension(name: &str) -> (r: Option<String>)
    ensures
        r matches Some(e) ==> is_extension_in(e@, name@),
{
    std::path::Path::new(name).extension().and_then(|e| e.to_str()).map(|e| e.to_string())
}

/// Relies on syntect's SyntaxSet::find_syntax_by_extension: whether the set
/// knows a syntax for the extension.
#[verifier::external_body]
fn knows_extension(syntaxes: &SyntaxSet, extension: &str) -> bool {
    syntaxes.find_syntax_by_extension(extension).is_some()
}

/// The part of a gist the game reads: its files by name.
pub struct Gist {
    pub files: BTreeMap<String, GistFile>,
}

/// A file of a gist: its name, its language when known, and where its text is.
pub struct GistFile {
    pub filename: String,
    pub language: Option<String>,
    pub raw_url: String,
}

/// A gist file for a round: where its text is, its extension and language.
pub struct GistData {
    pub url: String,
    pub extension: String,
    pub language: String,
}

pub open spec fn is_supported_file(f: GistFile) -> bool {
    f.language matches Some(l) && is_language(l@)
}

/// Why an access token was refused.
#[derive(Clone, Copy, Debug, PartialEq, Eq, Structural)]
pub enum TokenError {
    /// The token does not look like an access token.
    InvalidToken,
    /// The token pattern could not be compiled.
    PatternRefused,
}

impl GistData {
    /// The first file of the gist, by name, in one of the game's languages,
    /// when its name has an extension the highlighter knows; `None` otherwise.
    pub fn from(gist: Gist, syntaxes: &SyntaxSet) -> (r: Option<GistData>)
        ensures
            r matches Some(d) ==> exists|k: String| #[trigger] gist.files@.contains_key(k)
                && is_supported_file(gist.files@[k])
                && gist.files@[k].raw_url@ == d.url@ && gist.files@[k].language->Some_0@ == d.language@
                && is_extension_in(d.extension@, gist.files@[k].filename@)
                && forall|k2: String| #[trigger] gist.files@.contains_key(k2) && text_lt(k2@, k@)
                    ==> !is_supported_file(gist.files@[k2]),
            (forall|k: String| #[trigger] gist.files@.contains_key(k) ==> !is_supported_file(gist.files@[k])) ==> r is None,
    {
        let ghost m = gist.files@;
        let files = entries_in_key_order(gist.files);
        let mut i: usize = 0;
        while i < files.len()
            invariant
                i <= files.len(),
                m == gist.files@,
                forall|j: int| 0 <= j < files.len() ==> #[trigger] m.contains_key(files@[j].0) && m[files@[j].0] == files@[j].1,
                forall|a: int, b: int| 0 <= a < b < files.len() ==> text_lt((#[trigger] files@[a]).0@, (#[trigger] files@[b]).0@),
                forall|k: String| #[trigger] m.contains_key(k) ==> exists|j: int| 0 <= j < files.len() && files@[j].0 == k,
                forall|j: int| 0 <= j < i ==> !is_supported_file(#[trigger] files@[j].1),
            decreases files.len() - i,
        {
            if let Some(l) = &files[i].1.language {
                if is_supported_language(l.as_str()) {
                    let extension = match file_extension(files[i].1.filename.as_str()) {
                        Some(e) => e,
                        None => return None,
                    };
                    if !knows_extension(syntaxes, extension.as_str()) {
                        return None;
                    }
                    let d = GistData { url: files[i].1.raw_url.clone(), extension, language: l.clone() };
                    proof {
                        let k = files@[i as int].0;
                        assert(m.contains_key(k) && m[k] == files@[i as int].1);
                        assert forall|k2: String| #[trigger] m.contains_key(k2) && text_lt(k2@, k@) implies !is_supported_file(m[k2]) by {
                            let j = choose|j: int| 0 <= j < files.len() && files@[j].0 == k2;
                            lemma_text_lt_asymmetric(k2@, k@);
                            if j > i {
                                assert(text_lt(files@[i as int].0@, files@[j].0@));
                            }
                            assert(m[files@[j].0] == files@[j].1);
                        }
                    }
                    return Some(d);
                }
            }
            i = i + 1;
        }
        None
    }
}

/// Where the access token of a session comes from, before it is checked.
#[derive(Debug, PartialEq, Eq)]
pub enum TokenPlan {
    /// The token given on the command line: its shape, then the host, check it.
    FromArgs(String),
    /// The token kept from an earlier run: the host checks it.
    FromConfig(String),
    /// No token: requests go out without one.
    NoToken,
}

/// Why no token could be used.
#[derive(Clone, Copy, Debug, PartialEq, Eq, Structural)]
pub enum TokenFailure {
    /// The token given on the command line was refused.
    InvalidToken,
    /// The kept token was refused, and is to be forgotten.
    InvalidConfigToken,
}

/// How the token check ends: the token to use, or why there is none; and
/// the token to keep for later runs, when that changes.
pub struct TokenOutcome {
    pub result: Result<Option<String>, TokenFailure>,
    pub store: Option<String>,
}

/// A token on the command line wins; else a kept, non-empty token; else none.
pub fn plan_token(arg: Option<String>, config_token: String) -> (r: TokenPlan)
    ensures
        match arg {
            Some(t) => r == TokenPlan::FromArgs(t),
            None => if config_token@.len() > 0 { r == TokenPlan::FromConfig(config_token) } else { r == TokenPlan::NoToken },
        },
{
    match arg {
        Some(t) => TokenPlan::FromArgs(t),
        None => if config_token.as_str().unicode_len() > 0 { TokenPlan::FromConfig(config_token) } else { TokenPlan::NoToken },
    }
}

/// The end of the token check, given whether the token looked right (for a
/// command-line token) and whether the host accepted it. An accepted
/// command-line token is used and kept; a refused kept token is forgotten.
pub fn settle_token(plan: TokenPlan, well_formed: bool, accepted: bool) -> (r: TokenOutcome)
    ensures
        match plan {
            TokenPlan::FromArgs(t) => if well_formed && accepted {
                r.result == Ok::<Option<String>, TokenFailure>(Some(t)) && r.store == Some(t)
            } else {
                r.result == Err::<Option<String>, TokenFailure>(TokenFailure::InvalidToken) && r.store is None
            },
            TokenPlan::FromConfig(t) => if accepted {
                r.result == Ok::<Option<String>, TokenFailure>(Some(t)) && r.store is None
            } else {
                r.result == Err::<Option<String>, TokenFailure>(TokenFailure::InvalidConfigToken)
                    && r.store is Some && r.store->Some_0@.len() == 0
            },
            TokenPlan::NoToken => r.result == Ok::<Option<String>, TokenFailure>(None) && r.store is None,
        },
{
    match plan {
        TokenPlan::FromArgs(t) => if well_formed && accepted {
            let kept = t.clone();
            TokenOutcome { result: Ok(Some(t)), store: Some(kept) }
        } else {
            TokenOutcome { result: Err(TokenFailure::InvalidToken), store: None }
        },
        TokenPlan::FromConfig(t) => if accepted {
            TokenOutcome { result: Ok(Some(t)), store: None }
        } else {
            TokenOutcome { result: Err(TokenFailure::InvalidConfigToken), store: Some(String::new()) }
        },
        TokenPlan::NoToken => TokenOutcome { result: Ok(None), store: None },
    }
}

/// The code host, reached through one agent, with an access token when one
/// is known.
pub struct Github {
    pub agent: Agent,
    pub token: Option<String>,
}

impl Github {
    /// Accepts `token` when it looks like an access token (see `TOKEN_PATTERN`).
    pub fn test_token_structure(token: &str) -> (r: Result<String, TokenError>)
        ensures
            match r {
                Ok(s) => s@ == token@ && regex_matches(TOKEN_PATTERN@, token@),
                Err(TokenError::InvalidToken) => !regex_matches(TOKEN_PATTERN@, token@),
                Err(TokenError::PatternRefused) => true,
            },
    {
        match pattern_matches(TOKEN_PATTERN, TOKEN_PATTERN_SIZE_LIMIT, token) {
            Some(true) => Ok(String::from_str(token)),
            Some(false) => Err(TokenError::InvalidToken),
            None => Err(TokenError::PatternRefused),
        }
    }
}

} // verus!
