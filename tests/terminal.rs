use guess_that_lang::lines::{select_lines, split_lines, cut_to_width};
use guess_that_lang::terminal::{choose_theme, Terminal, ThemeStyle};
use ansi_term::Colour;
use syntect::easy::HighlightLines;
use syntect::highlighting::{Color, ScopeSelectors, StyleModifier, Theme, ThemeItem};
use syntect::parsing::SyntaxSet;

const WIDTH: &usize = &500;

const COMMENT: Color = Color { r: 117, g: 113, b: 94, a: 0xFF };

fn terminal() -> Terminal {
    let mut theme = Theme::default();
    theme.settings.foreground = Some(Color { r: 248, g: 248, b: 242, a: 0xFF });
    theme.scopes.push(ThemeItem {
        scope: "comment".parse::<ScopeSelectors>().unwrap(),
        style: StyleModifier { foreground: Some(COMMENT), background: None, font_style: None },
    });
    theme.scopes.push(ThemeItem {
        scope: "keyword, storage".parse::<ScopeSelectors>().unwrap(),
        style: StyleModifier { foreground: Some(Color { r: 249, g: 38, b: 114, a: 0xFF }), background: None, font_style: None },
    });
    Terminal { syntaxes: SyntaxSet::load_defaults_newlines(), theme, is_truecolor: true }
}

fn parse_code_at(code: &str, width: &usize) -> Option<Vec<(String, String)>> {
    let terminal = terminal();
    let syntax = terminal.syntaxes.find_syntax_by_name("Rust").unwrap();
    let highlighter = HighlightLines::new(syntax, &terminal.theme);
    terminal.parse_code(code, highlighter, width)
}

fn parse_code(code: &str) -> Option<Vec<(String, String)>> {
    parse_code_at(code, WIDTH)
}

#[test]
fn cut_off_wide_code() {
    let code = "_".repeat(WIDTH + 1);
    let parsed = parse_code(&code).unwrap();

    assert_eq!(parsed[0].0, "_".repeat(WIDTH - 3 - "   1   | ".len()) + "...");
}

#[test]
fn remove_comments() {
    let code = "// Should be removed\n/// Should be removed\n//! Should be removed\n/* Should be removed */\nlet x = 5; // Whole line should be removed\nlet y = 6;\n";

    let parsed = parse_code(code).unwrap();
    assert_eq!(parsed.len(), 1);
}

#[test]
fn cut_off_tall_code() {
    let code = "Line 1\n\nLine 2\nLine 3\n\nLine 4\nLine 5\nLine 6\n\nLine 7\nLine 8\nLine 9\nLine 10\nLine 11\nLine 12\n";

    let parsed = parse_code(code).unwrap();
    assert_eq!(parsed.len(), code.lines().count() - 2);
}

#[test]
fn remove_consecutive_duplicate_newlines() {
    let code = "Line 1\n\n\nLine 2\n\n\nLine 3\n";

    let parsed = parse_code(code).unwrap();
    assert_eq!(parsed.len(), code.lines().count() - 2);
}

#[test]
fn trim_newlines() {
    let code = "\n\nLine 1\n\n\n";

    let parsed = parse_code(code).unwrap();
    assert_eq!(parsed.len(), 1);
}

#[test]
fn comment_line_is_dropped_at_width_80() {
    let parsed = parse_code_at("// comment\nlet x = 5;\n", &80).unwrap();
    assert_eq!(parsed.len(), 1);
    assert_eq!(parsed[0].0, "let x = 5;\n");
    assert_eq!(parsed[0].0.trim_end(), "let x = 5;");
}

#[test]
fn fourteen_lines_keep_first_ten() {
    let code: String = (1..=14).map(|i| format!("Line {i}\n")).collect();
    let parsed = parse_code(&code).unwrap();
    assert_eq!(parsed.len(), 10);
    for (idx, (plain, _)) in parsed.iter().enumerate() {
        assert_eq!(plain, &format!("Line {}\n", idx + 1));
    }
}

#[test]
fn wide_lines_fill_the_width_exactly() {
    let code = format!("{}\nshort\n{}\n", "a".repeat(100), "b".repeat(71));
    let width = 80;
    let parsed = parse_code_at(&code, &width).unwrap();
    assert_eq!(parsed.len(), 3);
    assert_eq!(parsed[0].0.chars().count() + 9, width);
    assert_eq!(parsed[0].0, "a".repeat(68) + "...");
    assert_eq!(parsed[1].0, "short\n");
    assert_eq!(parsed[2].0.chars().count() + 9, width);
}

#[test]
fn at_most_ten_non_blank_lines() {
    let code: String = (1..=30).map(|i| format!("Line {i}\n\n")).collect();
    let parsed = parse_code(&code).unwrap();
    let non_blank = parsed.iter().filter(|(l, _)| l != "\n").count();
    assert_eq!(non_blank, 10);
    assert_eq!(parsed.len(), 19);
}

#[test]
fn no_blank_pairs_and_no_blank_ends() {
    let parsed = parse_code("\n\n\na\n\n\n\nb\n\nc\n\n\n").unwrap();
    let plain: Vec<&str> = parsed.iter().map(|(l, _)| l.as_str()).collect();
    assert_eq!(plain, vec!["a\n", "\n", "b\n", "\n", "c\n"]);
}

#[test]
fn only_comments_gives_nothing() {
    assert!(parse_code("// one\n// two\n").is_none());
    assert!(parse_code("").is_none());
    assert!(parse_code("\n\n\n").is_none());
}

#[test]
fn split_keeps_terminators_and_last_line() {
    let lines = split_lines("ab\n\ncd");
    assert_eq!(lines, vec![vec!['a', 'b', '\n'], vec!['\n'], vec!['c', 'd']]);
    assert!(split_lines("").is_empty());
}

#[test]
fn cut_at_the_smallest_width() {
    let line: Vec<char> = "abcdef".chars().collect();
    assert_eq!(cut_to_width(&line, 12), vec!['.', '.', '.']);
    assert_eq!(cut_to_width(&line, 15), line);
    assert_eq!(cut_to_width(&line, 14), vec!['a', 'b', '.', '.', '.']);
}

#[test]
fn select_drops_caps_collapses_and_trims() {
    let s = |x: &str| x.to_string();
    let mut cands = vec![(s("\n"), Some(s("\n"))), (s("x\n"), None), (s("a\n"), Some(s("A")))];
    for _ in 0..3 {
        cands.push((s("\n"), Some(s("\n"))));
    }
    for i in 0..12 {
        cands.push((format!("l{i}\n"), Some(format!("L{i}"))));
    }
    let shown = select_lines(&cands).unwrap();
    assert_eq!(shown.len(), 11);
    assert_eq!(shown[0], (s("a\n"), s("A")));
    assert_eq!(shown[1], (s("\n"), s("\n")));
    assert_eq!(shown[10].0, "l8\n");
    assert!(select_lines(&vec![(s("\n"), Some(s("\n"))), (s("a\n"), None)]).is_none());
}

#[test]
fn comment_colours_drop_a_line() {
    let pieces = vec![(Color { r: 1, g: 2, b: 3, a: 0xFF }, "let ".to_string()), (COMMENT, "// c".to_string())];
    assert_eq!(Terminal::render_pieces(&pieces, true), None);
    let other = Color { r: 124, g: 120, b: 101, a: 0xFF };
    assert_eq!(Terminal::render_pieces(&vec![(other, "#".to_string())], true), None);
    // The highlighter's own colour decides, whatever the terminal shows.
    assert_eq!(Terminal::render_pieces(&pieces, false), None);
    let palette = Color { r: 117, g: 113, b: 94, a: 0 };
    assert!(Terminal::render_pieces(&vec![(palette, "x".to_string())], true).is_some());
}

#[test]
fn rendering_paints_each_piece() {
    let pieces = vec![(Color { r: 10, g: 20, b: 30, a: 0xFF }, "let".to_string())];
    let painted = Terminal::render_pieces(&pieces, true).unwrap();
    assert_ne!(painted, "let");
    assert!(painted.contains("let"));
    assert!(painted.contains("38;2;10;20;30"));
}

#[test]
fn highlighted_line_differs_from_plain() {
    let parsed = parse_code("let y = 6;\n").unwrap();
    assert_eq!(parsed[0].0, "let y = 6;\n");
    assert_ne!(parsed[0].1, parsed[0].0);
    assert!(parsed[0].1.contains("\u{1b}["));
}

#[test]
fn ansi_colours_by_alpha_and_true_colour() {
    let c = |r, g, b, a| Color { r, g, b, a };
    assert_eq!(Terminal::to_ansi_color(c(0, 9, 9, 0), true), Colour::Black);
    assert_eq!(Terminal::to_ansi_color(c(5, 9, 9, 0), false), Colour::Purple);
    assert_eq!(Terminal::to_ansi_color(c(7, 0, 0, 0), true), Colour::White);
    assert_eq!(Terminal::to_ansi_color(c(42, 0, 0, 0), true), Colour::Fixed(42));
    assert_eq!(Terminal::to_ansi_color(c(95, 135, 175, 0xFF), true), Colour::RGB(95, 135, 175));
    assert_eq!(Terminal::to_ansi_color(c(95, 135, 175, 0xFF), false), Colour::Fixed(67));
    assert_eq!(Terminal::to_ansi_color(c(255, 255, 255, 0xFF), false), Colour::Fixed(231));
}

#[test]
fn format_option_bolds_the_key() {
    let text = Terminal::format_option("1", "Rust");
    assert!(text.starts_with("     ["));
    assert!(text.ends_with("] Rust"));
    assert_ne!(text, "     [1] Rust");
    assert!(text.contains("\u{1b}[1m"));
}

#[test]
fn theme_style_names() {
    assert_eq!(ThemeStyle::try_from(Some("dark".to_string())), Ok(ThemeStyle::Dark));
    assert_eq!(ThemeStyle::try_from(Some("light".to_string())), Ok(ThemeStyle::Light));
    assert_eq!(ThemeStyle::try_from(Some("Dark".to_string())), Err(()));
    assert_eq!(ThemeStyle::try_from(None), Err(()));
    assert_eq!(ThemeStyle::Dark.theme_name(), "Monokai Extended");
    assert_eq!(ThemeStyle::Light.theme_name(), "Monokai Extended Light");
}

#[test]
fn theme_choice_order() {
    assert_eq!(choose_theme(Some("light".to_string()), Some(ThemeStyle::Dark), false), (ThemeStyle::Light, true));
    assert_eq!(choose_theme(Some("blue".to_string()), Some(ThemeStyle::Light), false), (ThemeStyle::Light, false));
    assert_eq!(choose_theme(None, None, true), (ThemeStyle::Light, false));
    assert_eq!(choose_theme(None, None, false), (ThemeStyle::Dark, false));
}

#[test]
fn dotted_line_hides_code() {
    assert_eq!(Terminal::dotted_line("  let x = 5;\n"), "  ··· · · ··");
    assert_eq!(Terminal::dotted_line("\n"), "");
    assert_eq!(Terminal::dotted_line("a\tb  "), "·\t·");
}

#[test]
fn white_space_matches_std_on_every_char() {
    for n in 0..=0x10FFFFu32 {
        if let Some(c) = char::from_u32(n) {
            assert_eq!(guess_that_lang::terminal::whitespace(c), c.is_whitespace(), "{n:#x}");
        }
    }
}
