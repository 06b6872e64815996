use std::collections::BTreeMap;
use guess_that_lang::github::{self, plan_token, settle_token, Github, TokenError, TokenFailure, TokenPlan};
use guess_that_lang::providers::bearer;
use guess_that_lang::providers::gists::{self, GistData, GistFile, GistProvider};
use guess_that_lang::{Config};
use syntect::parsing::SyntaxSet;

#[test]
fn github_access_token_regex() {
    assert!(Github::test_token_structure(&"a".repeat(40)).is_ok());
    assert!(Github::test_token_structure(&format!("ghp_{}", "a".repeat(36))).is_ok());
    assert!(Github::test_token_structure(&"g".repeat(40)).is_err());
    assert!(Github::test_token_structure(&"a".repeat(39)).is_err());
    assert!(Github::test_token_structure(&format!("ghp_{}", ".".repeat(36))).is_err());
    assert!(Github::test_token_structure(&format!("ghp_{}", "a".repeat(35))).is_err());
}

#[test]
fn mod_access_token_regex() {
    assert!(Github::test_token_structure(&"a".repeat(40)).is_ok());
    assert!(Github::test_token_structure(&"g".repeat(40)).is_err());
    assert!(Github::test_token_structure(&"a".repeat(39)).is_err());
    assert!(Github::test_token_structure(&format!("ghp_{}", ".".repeat(36))).is_err());
    assert!(Github::test_token_structure(&format!("ghp_{}", "a".repeat(35))).is_err());
    assert!(Github::test_token_structure(&format!("ghp_{}", "a".repeat(36))).is_ok());
}

#[test]
fn accepted_token_is_handed_back() {
    let token = "0123456789abcdef0123456789abcdef01234567";
    assert_eq!(Github::test_token_structure(token), Ok(token.to_string()));
    assert_eq!(Github::test_token_structure("nope"), Err(TokenError::InvalidToken));
}

#[test]
fn bearer_header_value() {
    assert_eq!(bearer("abc"), "Bearer abc");
}

fn gist_file(language: Option<&str>, url: &str) -> GistFile {
    GistFile { language: language.map(|l| l.to_string()), raw_url: url.to_string() }
}

#[test]
fn gist_takes_first_supported_file_by_name() {
    let mut files = BTreeMap::new();
    files.insert("c.txt".to_string(), gist_file(Some("Text"), "u-c"));
    files.insert("b.rs".to_string(), gist_file(Some("Rust"), "u-b"));
    files.insert("a.md".to_string(), gist_file(None, "u-a"));
    files.insert("d.go".to_string(), gist_file(Some("Go"), "u-d"));
    let data = GistData::try_from(gists::Gist { files }).unwrap();
    assert_eq!(data.url, "u-b");
    assert_eq!(data.language, "Rust");
}

#[test]
fn gist_without_supported_file_is_refused() {
    let mut files = BTreeMap::new();
    files.insert("a.md".to_string(), gist_file(Some("Markdown"), "u-a"));
    files.insert("b".to_string(), gist_file(None, "u-b"));
    assert!(GistData::try_from(gists::Gist { files }).is_err());
    assert!(GistData::try_from(gists::Gist { files: BTreeMap::new() }).is_err());
}

#[test]
fn github_gist_needs_a_known_extension() {
    let syntaxes = SyntaxSet::load_defaults_newlines();
    let file = |name: &str, language: Option<&str>, url: &str| github::GistFile {
        filename: name.to_string(),
        language: language.map(|l| l.to_string()),
        raw_url: url.to_string(),
    };
    let mut files = BTreeMap::new();
    files.insert("a.txt".to_string(), file("a.txt", Some("Text"), "u-a"));
    files.insert("main.py".to_string(), file("main.py", Some("Python"), "u-py"));
    let data = github::GistData::from(github::Gist { files }, &syntaxes).unwrap();
    assert_eq!(data.url, "u-py");
    assert_eq!(data.extension, "py");
    assert_eq!(data.language, "Python");

    let mut files = BTreeMap::new();
    files.insert("Makefile".to_string(), file("Makefile", Some("Go"), "u-m"));
    assert!(github::GistData::from(github::Gist { files }, &syntaxes).is_none());

    let mut files = BTreeMap::new();
    files.insert("x.zzzz".to_string(), file("x.zzzz", Some("Go"), "u-z"));
    assert!(github::GistData::from(github::Gist { files }, &syntaxes).is_none());
}

#[test]
fn gist_provider_options_and_cache() {
    let options = GistProvider::get_options("Rust".to_string());
    assert_eq!(options.len(), 4);
    assert_eq!(options.iter().filter(|o| *o == "Rust").count(), 1);

    let agent = ureq::AgentBuilder::new().build();
    let mut provider = GistProvider { agent, token: None, cache: Vec::new() };
    assert!(provider.needs_refill());
    assert!(provider.next_gist().is_none());
    provider.refill(vec![
        GistData { url: "u1".to_string(), language: "C".to_string() },
        GistData { url: "u2".to_string(), language: "Go".to_string() },
    ]);
    assert!(!provider.needs_refill());
    assert_eq!(provider.next_gist().unwrap().url, "u2");
    assert_eq!(provider.next_gist().unwrap().url, "u1");
    assert!(provider.needs_refill());
}

#[test]
fn default_config_is_empty() {
    let c = Config::default();
    assert_eq!(c.high_score, 0);
    assert!(c.token.is_empty());
    assert!(c.theme.is_none());
}

#[test]
fn token_sources_in_order() {
    let s = |x: &str| x.to_string();
    assert_eq!(plan_token(Some(s("t1")), s("t2")), TokenPlan::FromArgs(s("t1")));
    assert_eq!(plan_token(None, s("t2")), TokenPlan::FromConfig(s("t2")));
    assert_eq!(plan_token(None, String::new()), TokenPlan::NoToken);
}

#[test]
fn token_outcomes() {
    let s = |x: &str| x.to_string();
    let o = settle_token(TokenPlan::FromArgs(s("t")), true, true);
    assert_eq!(o.result, Ok(Some(s("t"))));
    assert_eq!(o.store, Some(s("t")));
    let o = settle_token(TokenPlan::FromArgs(s("t")), false, true);
    assert_eq!(o.result, Err(TokenFailure::InvalidToken));
    assert_eq!(o.store, None);
    let o = settle_token(TokenPlan::FromArgs(s("t")), true, false);
    assert_eq!(o.result, Err(TokenFailure::InvalidToken));
    let o = settle_token(TokenPlan::FromConfig(s("k")), true, true);
    assert_eq!(o.result, Ok(Some(s("k"))));
    assert_eq!(o.store, None);
    let o = settle_token(TokenPlan::FromConfig(s("k")), true, false);
    assert_eq!(o.result, Err(TokenFailure::InvalidConfigToken));
    assert_eq!(o.store, Some(String::new()));
    let o = settle_token(TokenPlan::NoToken, false, false);
    assert_eq!(o.result, Ok(None));
    assert_eq!(o.store, None);
}

#[test]
fn github_gist_takes_first_supported_file_by_name() {
    let syntaxes = SyntaxSet::load_defaults_newlines();
    let file = |name: &str, language: &str, url: &str| github::GistFile {
        filename: name.to_string(),
        language: Some(language.to_string()),
        raw_url: url.to_string(),
    };
    let mut files = BTreeMap::new();
    files.insert("z.py".to_string(), file("z.py", "Python", "u-z"));
    files.insert("m.rs".to_string(), file("m.rs", "Rust", "u-m"));
    files.insert("a.txt".to_string(), file("a.txt", "Text", "u-a"));
    let data = github::GistData::from(github::Gist { files }, &syntaxes).unwrap();
    assert_eq!(data.url, "u-m");
    assert_eq!(data.extension, "rs");
}
