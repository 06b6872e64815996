//! A terminal trivia game: guess the programming language of a snippet that is
//! revealed line by line while the points on offer shrink.
use vstd::prelude::*;
use crate::terminal::ThemeStyle;

pub mod game;
pub mod github;
pub mod lines;
pub mod providers;
pub mod terminal;

verus! {

/// The command-line options of the game.
pub struct Args {
    /// A personal access token for the code host.
    pub token: Option<String>,
    /// Where snippets come from ("gists" or "repos").
    pub provider: Option<String>,
    /// The wait before the first line is revealed, in milliseconds.
    pub wait: u64,
    /// Whether lines are revealed in random order.
    pub shuffle: bool,
    /// The theme asked for ("dark" or "light").
    pub theme: Option<String>,
}

/// What the game keeps between runs.
pub struct Config {
    pub high_score: u32,
    pub token: String,
    pub theme: Option<ThemeStyle>,
}

impl Default for Config {
    /// Nothing kept yet: no high score, no token, no theme.
    fn default() -> (r: Config)
        ensures
            r.high_score == 0,
            r.token@.len() == 0,
            r.theme is None,
    {
        Config { high_score: 0, token: String::new(), theme: None }
    }
}

} // verus!
