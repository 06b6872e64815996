//! Snippets drawn from public gists.
use vstd::prelude::*;
use vstd::string::StringExecFns;
use std::collections::BTreeMap;
use ureq::Agent;
use crate::game::{Game, is_language, is_supported_language, texts, valid_options};
use crate::providers::{entries_in_key_order, lemma_text_lt_asymmetric, text_lt};

verus! {

/// The part of a gist the game reads: its files by name.
pub struct Gist {
    pub files: BTreeMap<String, GistFile>,
}

/// A file of a gist: its language, when known, and where its text is.
pub struct GistFile {
    pub language: Option<String>,
    pub raw_url: String,
}

/// A gist file in a supported language: where its text is, and its language.
pub struct GistData {
    pub url: String,
    pub language: String,
}

/// Whether a gist file is in one of the game's languages.
pub open spec fn is_supported_file(f: GistFile) -> bool {
    f.language matches Some(l) && is_language(l@)
}

impl GistData {
    /// The first file of the gist, by name, in one of the game's languages;
    /// refused when it has none.
    pub fn try_from(gist: Gist) -> (r: Result<GistData, ()>)
        ensures
            match r {
                Ok(d) => exists|k: String| #[trigger] gist.files@.contains_key(k)
                    && is_supported_file(gist.files@[k])
                    && gist.files@[k].raw_url@ == d.url@ && gist.files@[k].language->Some_0@ == d.language@
                    && forall|k2: String| #[trigger] gist.files@.contains_key(k2) && text_lt(k2@, k@)
                        ==> !is_supported_file(gist.files@[k2]),
                Err(_) => forall|k: String| #[trigger] gist.files@.contains_key(k) ==> !is_supported_file(gist.files@[k]),
            },
    {
        let ghost m = gist.files@;
        let files = entries_in_key_order(gist.files);
        let mut i: usize = 0;
        while i < files.len()
            invariant
                i <= files.len(),
                m == gist.files@,
                files.len() == m.dom().len(),
                forall|j: int| 0 <= j < files.len() ==> #[trigger] m.contains_key(files@[j].0) && m[files@[j].0] == files@[j].1,
                forall|a: int, b: int| 0 <= a < b < files.len() ==> text_lt((#[trigger] files@[a]).0@, (#[trigger] files@[b]).0@),
                forall|k: String| #[trigger] m.contains_key(k) ==> exists|j: int| 0 <= j < files.len() && files@[j].0 == k,
                forall|j: int| 0 <= j < i ==> !is_supported_file(#[trigger] files@[j].1),
            decreases files.len() - i,
        {
            if let Some(l) = &files[i].1.language {
                if is_supported_language(l.as_str()) {
                    let d = GistData { url: files[i].1.raw_url.clone(), language: l.clone() };
                    proof {
                        let k = files@[i as int].0;
                        assert(m.contains_key(k) && m[k] == files@[i as int].1);
                        assert forall|k2: String| #[trigger] m.contains_key(k2) && text_lt(k2@, k@) implies !is_supported_file(m[k2]) by {
                            let j = choose|j: int| 0 <= j < files.len() && files@[j].0 == k2;
                            lemma_text_lt_asymmetric(k2@, k@);
                            if j > i {
                                assert(text_lt(files@[i as int].0@, files@[j].0@));
                            }
                            assert(m[files@[j].0] == files@[j].1);
                        }
                    }
                    return Ok(d);
                }
            }
            i = i + 1;
        }
        proof {
            assert forall|k: String| #[trigger] m.contains_key(k) implies !is_supported_file(m[k]) by {
                let j = choose|j: int| 0 <= j < files.len() && files@[j].0 == k;
                assert(m[files@[j].0] == files@[j].1);
            }
        }
        Err(())
    }
}

/// Gists drawn from the code host, kept until they are used.
pub struct GistProvider {
    pub agent: Agent,
    pub token: Option<String>,
    pub cache: Vec<GistData>,
}

impl GistProvider {
    /// Four options for a round, as owned strings (see `Game::get_options`).
    pub fn get_options(correct_language: String) -> (r: Vec<String>)
        ensures
            valid_options(r@.map_values(|s: String| s@), correct_language@),
    {
        let options = Game::get_options(correct_language.as_str());
        let mut r: Vec<String> = Vec::new();
        let mut i: usize = 0;
        while i < options.len()
            invariant
                i <= options.len(),
                r.len() == i,
                r@.map_values(|s: String| s@) == texts(options@).take(i as int),
            decreases options.len() - i,
        {
            let ghost before = r@;
            let s = String::from_str(options[i]);
            r.push(s);
            assert(r@ == before.push(s));
            proof {
                let m = r@.map_values(|s: String| s@);
                let om = before.map_values(|s: String| s@);
                let want = texts(options@).take(i + 1);
                assert forall|j: int| 0 <= j < m.len() implies m[j] == want[j] by {
                    if j < i {
                        assert(m[j] == om[j]);
                        assert(om[j] == texts(options@).take(i as int)[j]);
                    }
                }
                assert(m =~= want);
            }
            i = i + 1;
        }
        assert(texts(options@).take(options.len() as int) == texts(options@));
        r
    }

    /// Whether the gists at hand are used up.
    pub fn needs_refill(&self) -> (r: bool)
        ensures
            r == (self.cache.len() == 0),
    {
        self.cache.len() == 0
    }

    /// Keeps freshly drawn gists for later rounds.
    pub fn refill(&mut self, gists: Vec<GistData>)
        ensures
            final(self).cache == gists,
            final(self).token == old(self).token,
    {
        self.cache = gists;
    }

    /// The gist for the next round: the last one kept, which is taken out.
    pub fn next_gist(&mut self) -> (r: Option<GistData>)
        ensures
            old(self).cache.len() == 0 ==> r is None && final(self).cache@ == old(self).cache@,
            old(self).cache.len() > 0 ==> r == Some(old(self).cache@.last())
                && final(self).cache@ == old(self).cache@.drop_last(),
            final(self).token == old(self).token,
    {
        self.cache.pop()
    }
}

} // verus!
