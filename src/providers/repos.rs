//! The pieces of the code host's answers when files are drawn from
//! repositories.
use vstd::prelude::*;

verus! {

/// One page of search results.
pub struct Page<T> {
    pub items: Vec<T>,
}

/// A repository found by a search.
pub struct Repository {
    pub full_name: String,
}

/// A file found by a code search.
pub struct RepositoryFilePreview {
    pub url: String,
}

/// A file of a repository, with where its text is downloaded from.
pub struct RepositoryFile {
    pub download_url: String,
}

} // verus!
