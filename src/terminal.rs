//! Highlighting and preprocessing of snippets, and the text pieces of the game
//! screen.
use vstd::prelude::*;
use vstd::string::StringExecFns;
use ansi_term::Colour;
use syntect::easy::HighlightLines;
use syntect::highlighting::{Color, Theme};
use syntect::parsing::SyntaxSet;
use crossterm::style::Stylize;
use crate::lines::{
    CandidateLine, MAX_CODE_LINES, MIN_WIDTH, candidate_view, candidates_view,
    chars_of, cut_line, cut_to_width, is_blank_line, lemma_select_at_most_ten,
    lemma_select_from_candidates, lemma_select_well_spaced, line_views, lines_of, nonblank_count,
    kept, select, select_lines, shown_view, split_lines, string_of, well_spaced,
};

verus! {

#[verifier::external_type_specification]
pub struct ExColour(Colour);

#[verifier::external_type_specification]
pub struct ExColor(Color);

#[verifier::external_type_specification]
#[verifier::external_body]
pub struct ExSyntaxSet(SyntaxSet);

#[verifier::external_type_specification]
#[verifier::external_body]
pub struct ExTheme(Theme);

#[verifier::external_type_specification]
#[verifier::external_body]
pub struct ExHighlightLines<'a>(HighlightLines<'a>);

/// The 256-colour palette entry that approximates a true colour.
pub uninterp spec fn ansi256_of(r: u8, g: u8, b: u8) -> u8;

/// The terminal text of pieces painted each in its colour.
pub uninterp spec fn painted(pieces: Seq<(Colour, Seq<char>)>) -> Seq<char>;

/// Whether a character has the Unicode White_Space property.
pub open spec fn is_white_space(c: char) -> bool {
    let n = c as u32;
    (0x9 <= n <= 0xd) || n == 0x20 || n == 0x85 || n == 0xa0 || n == 0x1680
        || (0x2000 <= n <= 0x200a) || n == 0x2028 || n == 0x2029 || n == 0x202f
        || n == 0x205f || n == 0x3000
}

/// Whether `c` is white space (see `is_white_space`).
pub fn whitespace(c: char) -> (r: bool)
    ensures
        r == is_white_space(c),
{
    let n = c as u32;
    (0x9 <= n && n <= 0xd) || n == 0x20 || n == 0x85 || n == 0xa0 || n == 0x1680
        || (0x2000 <= n && n <= 0x200a) || n == 0x2028 || n == 0x2029 || n == 0x202f
        || n == 0x205f || n == 0x3000
}

/// Relies on ansi_colours::ansi256_from_rgb: the palette entry nearest to a colour.
#[verifier::external_body]
fn ansi256(r: u8, g: u8, b: u8) -> (x: u8)
    ensures
        x == ansi256_of(r, g, b),
{
    ansi_colours::ansi256_from_rgb((r, g, b))
}

/// Relies on ansi_term's Colour::paint and ANSIStrings: the pieces painted in
/// their colours and written one after the other.
#[verifier::external_body]
fn paint_pieces(pieces: &Vec<(Colour, String)>) -> (r: String)
    ensures
        r@ == painted(pieces@.map_values(|p: (Colour, String)| (p.0, p.1@))),
{
    let painted: Vec<ansi_term::ANSIString> = pieces.iter().map(|(c, t)| c.paint(t.as_str())).collect();
    ansi_term::ANSIStrings(&painted).to_string()
}

/// Relies on syntect's HighlightLines::highlight_line: the foreground colour
/// and text of each styled piece of `line`, the pieces splitting the line, or
/// None where highlighting fails. The colours depend on the lines highlighted
/// before.
#[verifier::external_body]
fn highlight_pieces(h: &mut HighlightLines, line: &str, syntaxes: &SyntaxSet) -> (r: Option<Vec<(Color, String)>>)
    ensures
        r matches Some(pieces) ==> joined(pieces@) == line@,
{
    h.highlight_line(line, syntaxes).ok().map(
        |ranges| ranges.into_iter().map(|(style, piece)| (style.foreground, piece.to_string())).collect(),
    )
}

/// `s` between the escape codes that turn bold on and reset the style.
pub open spec fn bold_text(s: Seq<char>) -> Seq<char> {
    seq!['\u{1b}', '[', '1', 'm'] + s + seq!['\u{1b}', '[', '0', 'm']
}

/// Relies on crossterm's Stylize::bold and the Display of its styled content:
/// `s` wrapped in the bold attribute, or nothing on a console that takes no
/// escape codes.
#[verifier::external_body]
fn bold(s: &str) -> (r: String)
    ensures
        r@ == bold_text(s@) || r@.len() == 0,
{
    s.bold().to_string()
}

/// The terminal colour of a highlighter colour: an alpha of zero marks a
/// palette entry kept in the red component; other colours are shown as they
/// are on true-colour terminals and approximated on others.
pub open spec fn ansi_colour(color: Color, true_color: bool) -> Colour {
    if color.a == 0 {
        match color.r {
            0 => Colour::Black,
            1 => Colour::Red,
            2 => Colour::Green,
            3 => Colour::Yellow,
            4 => Colour::Blue,
            5 => Colour::Purple,
            6 => Colour::Cyan,
            7 => Colour::White,
            n => Colour::Fixed(n),
        }
    } else if true_color {
        Colour::RGB(color.r, color.g, color.b)
    } else {
        Colour::Fixed(ansi256_of(color.r, color.g, color.b))
    }
}

/// The two colours the themes give to comments (an alpha of zero marks a
/// palette entry, never one of them).
pub open spec fn is_comment_colour(c: Color) -> bool {
    c.a != 0 && ((c.r == 117 && c.g == 113 && c.b == 94) || (c.r == 124 && c.g == 120 && c.b == 101))
}

pub open spec fn has_comment(pieces: Seq<(Color, String)>) -> bool {
    exists|i: int| 0 <= i < pieces.len() && is_comment_colour(#[trigger] pieces[i].0)
}

/// The texts of the pieces, one after the other.
pub open spec fn joined(pieces: Seq<(Color, String)>) -> Seq<char>
    decreases pieces.len(),
{
    if pieces.len() == 0 {
        seq![]
    } else {
        joined(pieces.drop_last()) + pieces.last().1@
    }
}

/// `s` is what painting the highlighted pieces of `line` gives, none of them
/// in a comment colour.
pub open spec fn is_rendering(s: Seq<char>, line: Seq<char>, true_color: bool) -> bool {
    exists|pieces: Seq<(Color, String)>|
        joined(pieces) == line && !has_comment(pieces) && s == painted(#[trigger] coloured(pieces, true_color))
}

/// A candidate line is either dropped or rendered from comment-free pieces
/// of its own text.
pub open spec fn candidate_rendered(c: CandidateLine, true_color: bool) -> bool {
    match c.1 {
        Some(s) => is_rendering(s, c.0, true_color),
        None => true,
    }
}

pub open spec fn coloured(pieces: Seq<(Color, String)>, true_color: bool) -> Seq<(Colour, Seq<char>)> {
    pieces.map_values(|p: (Color, String)| (ansi_colour(p.0, true_color), p.1@))
}

/// A line with every character but white space turned into a middle dot.
pub open spec fn dots(s: Seq<char>) -> Seq<char> {
    s.map_values(|c: char| if is_white_space(c) { c } else { '\u{b7}' })
}

/// `s` without the white space at its end.
pub open spec fn trim_white_end(s: Seq<char>) -> Seq<char>
    decreases s.len(),
{
    if s.len() > 0 && is_white_space(s.last()) {
        trim_white_end(s.drop_last())
    } else {
        s
    }
}

/// The theme style a command-line value names, if any.
pub open spec fn theme_named(opt: Option<String>) -> Result<ThemeStyle, ()> {
    match opt {
        Some(s) if s@ == "dark"@ => Ok(ThemeStyle::Dark),
        Some(s) if s@ == "light"@ => Ok(ThemeStyle::Light),
        _ => Err(()),
    }
}

/// The light and dark variant of the colour theme.
#[derive(Clone, Copy, Debug, PartialEq, Eq, Structural)]
pub enum ThemeStyle {
    Dark,
    Light,
}

impl ThemeStyle {
    /// The style named "dark" or "light"; anything else is refused.
    pub fn try_from(opt: Option<String>) -> (r: Result<ThemeStyle, ()>)
        ensures
            r == theme_named(opt),
    {
        match opt {
            Some(s) => {
                if s == String::from_str("dark") {
                    Ok(ThemeStyle::Dark)
                } else if s == String::from_str("light") {
                    Ok(ThemeStyle::Light)
                } else {
                    Err(())
                }
            },
            None => Err(()),
        }
    }

    /// The name of the highlighting theme of this style.
    pub fn theme_name(self) -> (r: &'static str)
        ensures
            r@ == (match self {
                ThemeStyle::Dark => "Monokai Extended"@,
                ThemeStyle::Light => "Monokai Extended Light"@,
            }),
    {
        match self {
            ThemeStyle::Dark => "Monokai Extended",
            ThemeStyle::Light => "Monokai Extended Light",
        }
    }
}

/// The theme of a session, and whether to keep it for later runs: a theme
/// asked for on the command line is used and kept; else the kept one is
/// used; else light where the system prefers light, and dark otherwise.
pub fn choose_theme(arg: Option<String>, kept: Option<ThemeStyle>, prefers_light: bool) -> (r: (ThemeStyle, bool))
    ensures
        r == (match theme_named(arg) {
            Ok(t) => (t, true),
            Err(_) => match kept {
                Some(t) => (t, false),
                None => (if prefers_light { ThemeStyle::Light } else { ThemeStyle::Dark }, false),
            },
        }),
{
    match ThemeStyle::try_from(arg) {
        Ok(t) => (t, true),
        Err(_) => match kept {
            Some(t) => (t, false),
            None => (if prefers_light { ThemeStyle::Light } else { ThemeStyle::Dark }, false),
        },
    }
}

/// What the game needs to highlight code: the known syntaxes, the colour
/// theme, and whether the terminal shows true colours.
pub struct Terminal {
    pub syntaxes: SyntaxSet,
    pub theme: Theme,
    pub is_truecolor: bool,
}

impl Terminal {
    /// Converts a highlighter colour to a terminal colour (see `ansi_colour`).
    pub fn to_ansi_color(color: Color, true_color: bool) -> (r: Colour)
        ensures
            r == ansi_colour(color, true_color),
    {
        if color.a == 0 {
            match color.r {
                0 => Colour::Black,
                1 => Colour::Red,
                2 => Colour::Green,
                3 => Colour::Yellow,
                4 => Colour::Blue,
                5 => Colour::Purple,
                6 => Colour::Cyan,
                7 => Colour::White,
                n => Colour::Fixed(n),
            }
        } else if true_color {
            Colour::RGB(color.r, color.g, color.b)
        } else {
            Colour::Fixed(ansi256(color.r, color.g, color.b))
        }
    }

    /// Paints the highlighted pieces of a line; a line with a piece in a
    /// comment colour is dropped (`None`).
    pub fn render_pieces(pieces: &Vec<(Color, String)>, true_color: bool) -> (r: Option<String>)
        ensures
            match r {
                Some(s) => !has_comment(pieces@) && s@ == painted(coloured(pieces@, true_color)),
                None => has_comment(pieces@),
            },
    {
        let mut out: Vec<(Colour, String)> = Vec::new();
        let mut i: usize = 0;
        while i < pieces.len()
            invariant
                i <= pieces.len(),
                out.len() == i,
                forall|j: int| 0 <= j < i ==> !is_comment_colour(#[trigger] pieces@[j].0),
                out@.map_values(|p: (Colour, String)| (p.0, p.1@)) == coloured(pieces@.take(i as int), true_color),
            decreases pieces.len() - i,
        {
            let c = pieces[i].0;
            if c.a != 0 && ((c.r == 117 && c.g == 113 && c.b == 94) || (c.r == 124 && c.g == 120 && c.b == 101)) {
                assert(is_comment_colour(pieces@[i as int].0));
                return None;
            }
            let colour = Self::to_ansi_color(c, true_color);
            let ghost old_out = out@;
            let text = pieces[i].1.clone();
            out.push((colour, text));
            assert(out@ == old_out.push((colour, text)));
            assert(pieces@.take(i + 1) == pieces@.take(i as int).push(pieces@[i as int]));
            proof {
                let m = out@.map_values(|p: (Colour, String)| (p.0, p.1@));
                let om = old_out.map_values(|p: (Colour, String)| (p.0, p.1@));
                let want = coloured(pieces@.take(i + 1), true_color);
                assert(m.len() == want.len());
                assert forall|j: int| 0 <= j < m.len() implies m[j] == want[j] by {
                    if j < i {
                        assert(m[j] == om[j]);
                        assert(om[j] == coloured(pieces@.take(i as int), true_color)[j]);
                    } else {
                        assert(m[j] == (colour, text@));
                        assert(pieces@.take(i + 1)[j] == pieces@[i as int]);
                    }
                }
                assert(m =~= want);
            }
            i = i + 1;
        }
        assert(pieces@.take(pieces.len() as int) == pieces@);
        Some(paint_pieces(&out))
    }

    /// Highlights one line; `None` where highlighting fails or the line holds
    /// a comment.
    pub fn highlight_line(&self, code: &str, highlighter: &mut HighlightLines) -> (r: Option<String>)
        ensures
            r matches Some(s) ==> is_rendering(s@, code@, self.is_truecolor),
    {
        match highlight_pieces(highlighter, code, &self.syntaxes) {
            Some(pieces) => {
                let r = Self::render_pieces(&pieces, self.is_truecolor);
                assert(r matches Some(s) ==> joined(pieces@) == code@ && !has_comment(pieces@)
                    && s@ == painted(coloured(pieces@, self.is_truecolor)));
                r
            },
            None => None,
        }
    }

    /// Prepares a snippet for display: each line is capped to the terminal
    /// width and highlighted, lines with comments are dropped, and at most ten
    /// non-blank lines are kept, with blank runs collapsed and blank lines
    /// trimmed at both ends. `None` when no line is left.
    pub fn parse_code(&self, code: &str, highlighter: HighlightLines, width: &usize) -> (r: Option<Vec<(String, String)>>)
        requires
            *width >= MIN_WIDTH,
        ensures
            exists|c: Seq<CandidateLine>|
                c.len() <= lines_of(code@).len()
                && (c.len() == lines_of(code@).len() || nonblank_count(kept(c)) > MAX_CODE_LINES)
                && (forall|i: int| 0 <= i < c.len() ==> (#[trigger] c[i]).0 == cut_line(lines_of(code@)[i], *width as nat))
                && (forall|i: int| 0 <= i < c.len() ==> candidate_rendered(#[trigger] c[i], self.is_truecolor))
                && match r {
                    Some(v) => select(c) == Some(shown_view(v@)),
                    None => select(c) is None,
                },
            r matches Some(v) ==> {
                &&& forall|j: int| 0 <= j < v.len() ==> exists|i: int|
                    0 <= i < lines_of(code@).len() && (#[trigger] v[j]).0@ == cut_line(lines_of(code@)[i], *width as nat)
                &&& nonblank_count(shown_view(v@)) <= MAX_CODE_LINES
                &&& well_spaced(shown_view(v@))
            },
    {
        let mut highlighter = highlighter;
        let lines = split_lines(code);
        let ghost src = lines_of(code@);
        let mut cands: Vec<(String, Option<String>)> = Vec::new();
        let mut taken: usize = 0;
        let mut i: usize = 0;
        while i < lines.len() && taken <= MAX_CODE_LINES
            invariant
                i <= lines.len(),
                line_views(lines@) == src,
                *width >= MIN_WIDTH,
                cands.len() == i,
                taken == nonblank_count(kept(candidates_view(cands@))),
                taken <= MAX_CODE_LINES + 1,
                forall|j: int| 0 <= j < i ==> (#[trigger] candidates_view(cands@)[j]).0 == cut_line(src[j], *width as nat),
                forall|j: int| 0 <= j < i ==> candidate_rendered(#[trigger] candidates_view(cands@)[j], self.is_truecolor),
            decreases lines.len() - i,
        {
            let cut = cut_to_width(&lines[i], *width);
            let plain = string_of(cut.as_slice());
            let rendered = self.highlight_line(plain.as_str(), &mut highlighter);
            if rendered.is_some() && !is_blank_line(&plain) {
                taken = taken + 1;
            }
            let ghost old_cands = cands@;
            let ghost plain_view = plain@;
            cands.push((plain, rendered));
            assert(cands@ == old_cands.push((plain, rendered)));
            assert(candidates_view(cands@) =~= candidates_view(old_cands).push(candidate_view((plain, rendered))));
            assert(candidates_view(cands@)[i as int].0 == cut_line(src[i as int], *width as nat));
            proof {
                let cv = candidates_view(cands@);
                assert(cv.drop_last() == candidates_view(old_cands));
                let k = kept(cv);
                if rendered is Some {
                    assert(k.drop_last() == kept(candidates_view(old_cands)));
                }
            }
            i = i + 1;
        }
        let r = select_lines(&cands);
        proof {
            let c = candidates_view(cands@);
            assert(forall|j: int| 0 <= j < c.len() ==> (#[trigger] c[j]).0 == cut_line(src[j], *width as nat));
            assert(forall|j: int| 0 <= j < c.len() ==> candidate_rendered(#[trigger] c[j], self.is_truecolor));
            lemma_select_at_most_ten(c);
            lemma_select_well_spaced(c);
            if r is Some {
                let v = r->Some_0;
                assert forall|j: int| 0 <= j < v.len() implies exists|i: int|
                    0 <= i < src.len() && (#[trigger] v[j]).0@ == cut_line(src[i], *width as nat) by {
                    assert(shown_view(v@)[j].0 == v[j].0@);
                    lemma_select_from_candidates(c, j);
                }
            }
        }
        r
    }

    /// The hidden form of a code line: every character but white space
    /// replaced by a dot, with the white space at the end dropped.
    pub fn dotted_line(line: &str) -> (r: String)
        ensures
            r@ == trim_white_end(dots(line@)),
    {
        let cs = chars_of(line);
        let mut out: Vec<char> = Vec::new();
        let mut i: usize = 0;
        while i < cs.len()
            invariant
                i <= cs.len(),
                cs@ == line@,
                out@ == dots(cs@.take(i as int)),
            decreases cs.len() - i,
        {
            let c = cs[i];
            out.push(if whitespace(c) { c } else { '\u{b7}' });
            assert(out@ =~= dots(cs@.take(i + 1)));
            i = i + 1;
        }
        assert(cs@.take(cs.len() as int) == cs@);
        while out.len() > 0 && whitespace(out[out.len() - 1])
            invariant
                trim_white_end(out@) == trim_white_end(dots(line@)),
            decreases out.len(),
        {
            let ghost before = out@;
            out.pop();
            assert(out@ == before.drop_last());
        }
        string_of(out.as_slice())
    }

    /// An option of the menu: its key in bold between brackets, then its name.
    pub fn format_option(key: &str, name: &str) -> (r: String)
        ensures
            r@ == "     ["@ + bold_text(key@) + "] "@ + name@ || r@ == "     ["@ + "] "@ + name@,
    {
        let mut r = String::from_str("     [");
        let k = bold(key);
        r.append(k.as_str());
        r.append("] ");
        r.append(name);
        r
    }
}

} // verus!
