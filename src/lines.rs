//! The pure part of snippet preprocessing: splitting source text into lines,
//! capping each line to the terminal width, and selecting which highlighted
//! lines are shown.
use vstd::prelude::*;
use vstd::string::StrSliceExecFns;

verus! {

/// Columns reserved on the left of every code row (line number and separator).
pub const GUTTER_WIDTH: usize = 9;

/// Narrowest terminal that can show a cut line: the gutter plus the ellipsis.
pub const MIN_WIDTH: usize = 12;

/// At most this many non-blank lines of a snippet are shown.
pub const MAX_CODE_LINES: usize = 10;

/// A shown line: its plain text and its highlighted rendering.
pub type ShownLine = (Seq<char>, Seq<char>);

/// A candidate line: its plain text, and its rendering unless it was dropped.
pub type CandidateLine = (Seq<char>, Option<Seq<char>>);

pub open spec fn ellipsis() -> Seq<char> {
    seq!['.', '.', '.']
}

pub open spec fn newline() -> Seq<char> {
    seq!['\n']
}

/// A line is blank when it is nothing but a line terminator.
pub open spec fn is_blank(l: Seq<char>) -> bool {
    l == newline()
}

/// Splitting `s` after every `'\n'`: the finished lines, and the unfinished tail.
pub open spec fn split_state(s: Seq<char>) -> (Seq<Seq<char>>, Seq<char>)
    decreases s.len(),
{
    if s.len() == 0 {
        (seq![], seq![])
    } else {
        let (done, cur) = split_state(s.drop_last());
        let cur2 = cur.push(s.last());
        if s.last() == '\n' {
            (done.push(cur2), seq![])
        } else {
            (done, cur2)
        }
    }
}

/// The lines of `s`, each keeping its terminating `'\n'`; a last line without
/// one is kept when it is not empty.
pub open spec fn lines_of(s: Seq<char>) -> Seq<Seq<char>> {
    let (done, cur) = split_state(s);
    if cur.len() == 0 {
        done
    } else {
        done.push(cur)
    }
}

/// A line too wide for the terminal keeps its first `width - 12` characters
/// and ends in an ellipsis, so that with the gutter it fills `width` exactly.
pub open spec fn cut_line(l: Seq<char>, width: nat) -> Seq<char> {
    if l.len() + GUTTER_WIDTH > width {
        l.take(width - MIN_WIDTH) + ellipsis()
    } else {
        l
    }
}

/// The candidates that were not dropped, with their rendering.
pub open spec fn kept(c: Seq<CandidateLine>) -> Seq<ShownLine>
    decreases c.len(),
{
    if c.len() == 0 {
        seq![]
    } else {
        let rest = kept(c.drop_last());
        match c.last().1 {
            Some(r) => rest.push((c.last().0, r)),
            None => rest,
        }
    }
}

pub open spec fn nonblank_count(ls: Seq<ShownLine>) -> nat
    decreases ls.len(),
{
    if ls.len() == 0 {
        0
    } else {
        nonblank_count(ls.drop_last()) + if is_blank(ls.last().0) {
            0nat
        } else {
            1nat
        }
    }
}

/// The longest prefix of `ls` with at most ten non-blank lines.
pub open spec fn capped(ls: Seq<ShownLine>) -> Seq<ShownLine>
    decreases ls.len(),
{
    if ls.len() == 0 || nonblank_count(ls) <= MAX_CODE_LINES {
        ls
    } else {
        capped(ls.drop_last())
    }
}

/// `ls` with every run of blank lines reduced to its first line.
pub open spec fn collapsed(ls: Seq<ShownLine>) -> Seq<ShownLine>
    decreases ls.len(),
{
    if ls.len() == 0 {
        seq![]
    } else {
        let rest = collapsed(ls.drop_last());
        if is_blank(ls.last().0) && rest.len() > 0 && is_blank(rest.last().0) {
            rest
        } else {
            rest.push(ls.last())
        }
    }
}

pub open spec fn trim_end(ls: Seq<ShownLine>) -> Seq<ShownLine>
    decreases ls.len(),
{
    if ls.len() > 0 && is_blank(ls.last().0) {
        trim_end(ls.drop_last())
    } else {
        ls
    }
}

pub open spec fn trim_start(ls: Seq<ShownLine>) -> Seq<ShownLine>
    decreases ls.len(),
{
    if ls.len() > 0 && is_blank(ls[0].0) {
        trim_start(ls.drop_first())
    } else {
        ls
    }
}

/// What is shown of the candidates: the kept lines up to the eleventh
/// non-blank one, blank runs collapsed, blank lines trimmed at both ends;
/// `None` when nothing is left.
pub open spec fn select(c: Seq<CandidateLine>) -> Option<Seq<ShownLine>> {
    let ls = trim_start(trim_end(collapsed(capped(kept(c)))));
    if ls.len() == 0 {
        None
    } else {
        Some(ls)
    }
}

pub open spec fn no_adjacent_blanks(ls: Seq<ShownLine>) -> bool {
    forall|i: int| 0 <= i < ls.len() - 1 ==> !(is_blank(#[trigger] ls[i].0) && is_blank(ls[i + 1].0))
}

/// No two neighbouring lines are blank, and neither end is blank.
pub open spec fn well_spaced(ls: Seq<ShownLine>) -> bool {
    &&& no_adjacent_blanks(ls)
    &&& ls.len() > 0 ==> !is_blank(ls[0].0) && !is_blank(ls.last().0)
}

pub open spec fn candidate_view(c: (String, Option<String>)) -> CandidateLine {
    (
        c.0@,
        match c.1 {
            Some(r) => Some(r@),
            None => None,
        },
    )
}

pub open spec fn candidates_view(v: Seq<(String, Option<String>)>) -> Seq<CandidateLine> {
    v.map_values(|c: (String, Option<String>)| candidate_view(c))
}

pub open spec fn shown_view(v: Seq<(String, String)>) -> Seq<ShownLine> {
    v.map_values(|p: (String, String)| (p.0@, p.1@))
}

pub open spec fn line_views(v: Seq<Vec<char>>) -> Seq<Seq<char>> {
    v.map_values(|l: Vec<char>| l@)
}

/// Relies on str::chars: the characters of `s` in order.
#[verifier::external_body]
pub(crate) fn chars_of(s: &str) -> (r: Vec<char>)
    ensures
        r@ == s@,
{
    s.chars().collect()
}

/// Relies on String's FromIterator<&char>: the string of the given characters.
#[verifier::external_body]
pub(crate) fn string_of(cs: &[char]) -> (r: String)
    ensures
        r@ == cs@,
{
    cs.iter().collect()
}

/// Splits `code` after every line terminator, keeping the terminators.
pub fn split_lines(code: &str) -> (r: Vec<Vec<char>>)
    ensures
        line_views(r@) == lines_of(code@),
{
    let cs = chars_of(code);
    let mut done: Vec<Vec<char>> = Vec::new();
    let mut cur: Vec<char> = Vec::new();
    let mut i: usize = 0;
    while i < cs.len()
        invariant
            i <= cs.len(),
            cs@ == code@,
            (line_views(done@), cur@) == split_state(cs@.take(i as int)),
        decreases cs.len() - i,
    {
        let c = cs[i];
        assert(cs@.take(i + 1).drop_last() == cs@.take(i as int));
        cur.push(c);
        if c == '\n' {
            done.push(cur);
            cur = Vec::new();
            assert(line_views(done@) =~= split_state(cs@.take(i + 1)).0);
        }
        i = i + 1;
    }
    assert(cs@.take(cs.len() as int) == cs@);
    if cur.len() > 0 {
        done.push(cur);
        assert(line_views(done@) =~= lines_of(code@));
    }
    done
}

/// Caps `line` to the terminal `width` (see `cut_line`).
pub fn cut_to_width(line: &Vec<char>, width: usize) -> (r: Vec<char>)
    requires
        width >= MIN_WIDTH,
    ensures
        r@ == cut_line(line@, width as nat),
{
    if line.len() > width - GUTTER_WIDTH {
        let mut r: Vec<char> = Vec::new();
        let n = width - MIN_WIDTH;
        let mut i: usize = 0;
        while i < n
            invariant
                n == width - MIN_WIDTH,
                n <= line.len(),
                i <= n,
                r@ == line@.take(i as int),
            decreases n - i,
        {
            r.push(line[i]);
            i = i + 1;
            assert(r@ =~= line@.take(i as int));
        }
        r.push('.');
        r.push('.');
        r.push('.');
        assert(r@ =~= cut_line(line@, width as nat));
        r
    } else {
        line.clone()
    }
}

/// Whether `s` is a blank line.
pub fn is_blank_line(s: &String) -> (b: bool)
    ensures
        b == is_blank(s@),
{
    let t = s.as_str();
    if t.unicode_len() == 1 {
        let c = t.get_char(0);
        if c == '\n' {
            assert(t@ =~= newline());
        }
        c == '\n'
    } else {
        false
    }
}


proof fn lemma_nonblank_count_prefix(ls: Seq<ShownLine>, j: int)
    requires
        0 <= j <= ls.len(),
    ensures
        nonblank_count(ls.take(j)) <= nonblank_count(ls),
    decreases ls.len(),
{
    if j < ls.len() {
        assert(ls.drop_last().take(j) == ls.take(j));
        lemma_nonblank_count_prefix(ls.drop_last(), j);
    } else {
        assert(ls.take(j) == ls);
    }
}

/// Once a prefix holds ten non-blank lines and the next line is non-blank too,
/// the cap ends at that prefix.
proof fn lemma_capped_at(ls: Seq<ShownLine>, k: int)
    requires
        0 <= k < ls.len(),
        nonblank_count(ls.take(k)) == MAX_CODE_LINES,
        !is_blank(ls[k].0),
    ensures
        capped(ls) == ls.take(k),
    decreases ls.len(),
{
    assert(ls.take(k + 1).drop_last() == ls.take(k));
    assert(nonblank_count(ls.take(k + 1)) == MAX_CODE_LINES + 1);
    lemma_nonblank_count_prefix(ls, k + 1);
    assert(capped(ls) == capped(ls.drop_last()));
    if ls.len() == k + 1 {
        assert(ls.drop_last() == ls.take(k));
        assert(capped(ls.take(k)) == ls.take(k));
    } else {
        assert(ls.drop_last().take(k) == ls.take(k));
        lemma_capped_at(ls.drop_last(), k);
    }
}

/// The kept lines of a prefix of the candidates are a prefix of the kept lines.
proof fn lemma_kept_prefix(c: Seq<CandidateLine>, j: int)
    requires
        0 <= j <= c.len(),
    ensures
        kept(c.take(j)).len() <= kept(c).len(),
        kept(c).take(kept(c.take(j)).len() as int) == kept(c.take(j)),
    decreases c.len(),
{
    if j < c.len() {
        assert(c.drop_last().take(j) == c.take(j));
        lemma_kept_prefix(c.drop_last(), j);
        assert(kept(c).take(kept(c.take(j)).len() as int) =~= kept(c.take(j)));
    } else {
        assert(c.take(j) == c);
        assert(kept(c).take(kept(c).len() as int) == kept(c));
    }
}

/// Keeps the candidates that were not dropped, up to the eleventh non-blank
/// one, with runs of blank lines collapsed.
fn keep_capped_collapsed(cands: &Vec<(String, Option<String>)>) -> (r: Vec<(String, String)>)
    ensures
        shown_view(r@) == collapsed(capped(kept(candidates_view(cands@)))),
{
    let ghost c = candidates_view(cands@);
    let mut out: Vec<(String, String)> = Vec::new();
    let mut count: usize = 0;
    let mut prev_blank = false;
    let mut i: usize = 0;
    while i < cands.len()
        invariant
            i <= cands.len(),
            c == candidates_view(cands@),
            count == nonblank_count(kept(c.take(i as int))),
            count <= MAX_CODE_LINES,
            shown_view(out@) == collapsed(kept(c.take(i as int))),
            out.len() > 0 ==> prev_blank == is_blank(shown_view(out@).last().0),
        decreases cands.len() - i,
    {
        let ghost before = kept(c.take(i as int));
        assert(c.take(i + 1).drop_last() == c.take(i as int));
        match &cands[i].1 {
            Some(rendered) => {
                let blank = is_blank_line(&cands[i].0);
                if !blank && count == MAX_CODE_LINES {
                    proof {
                        lemma_kept_prefix(c, i as int);
                        lemma_kept_prefix(c, i + 1);
                        let k = before.len() as int;
                        assert(kept(c.take(i + 1)) == before.push((c[i as int].0, rendered@)));
                        assert(kept(c).take(k + 1)[k] == kept(c)[k]);
                        lemma_capped_at(kept(c), k);
                    }
                    return out;
                }
                let ghost after = before.push((c[i as int].0, rendered@));
                assert(kept(c.take(i + 1)) == after);
                assert(after.drop_last() == before);
                if blank && out.len() > 0 && prev_blank {
                } else {
                    out.push((cands[i].0.clone(), rendered.clone()));
                    assert(shown_view(out@) =~= collapsed(after));
                }
                if !blank {
                    count = count + 1;
                }
                prev_blank = blank;
            },
            None => {
                assert(kept(c.take(i + 1)) == before);
            },
        }
        i = i + 1;
    }
    assert(c.take(cands.len() as int) == c);
    out
}

/// Drops the blank lines at the end of `v`.
fn trim_blank_end(v: &mut Vec<(String, String)>)
    ensures
        shown_view(final(v)@) == trim_end(shown_view(old(v)@)),
{
    while v.len() > 0 && is_blank_line(&v[v.len() - 1].0)
        invariant
            trim_end(shown_view(v@)) == trim_end(shown_view(old(v)@)),
        decreases v.len(),
    {
        let ghost before = shown_view(v@);
        v.pop();
        assert(shown_view(v@) =~= before.drop_last());
    }
}

/// `v` without its leading blank lines.
fn trim_blank_start(v: Vec<(String, String)>) -> (r: Vec<(String, String)>)
    ensures
        shown_view(r@) == trim_start(shown_view(v@)),
{
    let mut k: usize = 0;
    assert(shown_view(v@).skip(0) == shown_view(v@));
    while k < v.len() && is_blank_line(&v[k].0)
        invariant
            k <= v.len(),
            trim_start(shown_view(v@).skip(k as int)) == trim_start(shown_view(v@)),
        decreases v.len() - k,
    {
        assert(shown_view(v@).skip(k as int).drop_first() =~= shown_view(v@).skip(k + 1));
        k = k + 1;
    }
    let mut r: Vec<(String, String)> = Vec::new();
    let mut i: usize = k;
    while i < v.len()
        invariant
            k <= i <= v.len(),
            shown_view(r@) == shown_view(v@).subrange(k as int, i as int),
        decreases v.len() - i,
    {
        let ghost old_r = r@;
        let plain = v[i].0.clone();
        let rendered = v[i].1.clone();
        r.push((plain, rendered));
        assert(r@ == old_r.push((plain, rendered)));
        assert(shown_view(r@) == shown_view(old_r).push((plain@, rendered@)));
        i = i + 1;
        assert(shown_view(r@) =~= shown_view(v@).subrange(k as int, i as int));
    }
    assert(shown_view(v@).subrange(k as int, v.len() as int) == shown_view(v@).skip(k as int));
    r
}

/// Chooses the lines shown of a snippet from its candidate lines: the kept
/// lines up to the eleventh non-blank one, with blank runs collapsed and
/// blank lines trimmed at both ends; `None` when nothing is left.
pub fn select_lines(cands: &Vec<(String, Option<String>)>) -> (r: Option<Vec<(String, String)>>)
    ensures
        match r {
            Some(v) => select(candidates_view(cands@)) == Some(shown_view(v@)),
            None => select(candidates_view(cands@)) is None,
        },
{
    let mut v = keep_capped_collapsed(cands);
    trim_blank_end(&mut v);
    let r = trim_blank_start(v);
    if r.len() == 0 {
        None
    } else {
        Some(r)
    }
}

proof fn lemma_capped_count(ls: Seq<ShownLine>)
    ensures
        nonblank_count(capped(ls)) <= MAX_CODE_LINES,
    decreases ls.len(),
{
    if ls.len() > 0 && nonblank_count(ls) > MAX_CODE_LINES {
        lemma_capped_count(ls.drop_last());
    }
}

proof fn lemma_collapsed_count(ls: Seq<ShownLine>)
    ensures
        nonblank_count(collapsed(ls)) == nonblank_count(ls),
    decreases ls.len(),
{
    if ls.len() > 0 {
        lemma_collapsed_count(ls.drop_last());
        let rest = collapsed(ls.drop_last());
        assert(rest.push(ls.last()).drop_last() == rest);
    }
}

proof fn lemma_trim_end_count(ls: Seq<ShownLine>)
    ensures
        nonblank_count(trim_end(ls)) == nonblank_count(ls),
    decreases ls.len(),
{
    if ls.len() > 0 && is_blank(ls.last().0) {
        lemma_trim_end_count(ls.drop_last());
    }
}

proof fn lemma_count_drop_first(ls: Seq<ShownLine>)
    requires
        ls.len() > 0,
    ensures
        nonblank_count(ls) == nonblank_count(ls.drop_first()) + if is_blank(ls[0].0) {
            0nat
        } else {
            1nat
        },
    decreases ls.len(),
{
    if ls.len() > 1 {
        assert(ls.drop_first().drop_last() == ls.drop_last().drop_first());
        assert(ls.drop_first().last() == ls.last());
        assert(ls.drop_last()[0] == ls[0]);
        lemma_count_drop_first(ls.drop_last());
        assert(nonblank_count(ls.drop_first()) == nonblank_count(ls.drop_first().drop_last()) + if is_blank(ls.last().0) {
            0nat
        } else {
            1nat
        });
    } else {
        assert(ls.drop_first().len() == 0);
        assert(ls.drop_last().len() == 0);
        assert(ls.last() == ls[0]);
        assert(nonblank_count(ls.drop_last()) == 0);
    }
}

proof fn lemma_trim_start_count(ls: Seq<ShownLine>)
    ensures
        nonblank_count(trim_start(ls)) == nonblank_count(ls),
    decreases ls.len(),
{
    if ls.len() > 0 && is_blank(ls[0].0) {
        lemma_count_drop_first(ls);
        lemma_trim_start_count(ls.drop_first());
    }
}

proof fn lemma_collapsed_no_adjacent(ls: Seq<ShownLine>)
    ensures
        no_adjacent_blanks(collapsed(ls)),
    decreases ls.len(),
{
    if ls.len() > 0 {
        lemma_collapsed_no_adjacent(ls.drop_last());
        let rest = collapsed(ls.drop_last());
        let r = collapsed(ls);
        if !(is_blank(ls.last().0) && rest.len() > 0 && is_blank(rest.last().0)) {
            assert forall|i: int| 0 <= i < r.len() - 1 implies !(is_blank(#[trigger] r[i].0) && is_blank(r[i + 1].0)) by {
                if i < rest.len() - 1 {
                    assert(r[i] == rest[i] && r[i + 1] == rest[i + 1]);
                }
            }
        }
    }
}

proof fn lemma_trim_end_shape(ls: Seq<ShownLine>)
    ensures
        trim_end(ls).len() <= ls.len(),
        trim_end(ls) == ls.take(trim_end(ls).len() as int),
        trim_end(ls).len() > 0 ==> !is_blank(trim_end(ls).last().0),
    decreases ls.len(),
{
    if ls.len() > 0 && is_blank(ls.last().0) {
        lemma_trim_end_shape(ls.drop_last());
        assert(ls.drop_last().take(trim_end(ls).len() as int) == ls.take(trim_end(ls).len() as int));
    } else {
        assert(ls.take(ls.len() as int) == ls);
    }
}

proof fn lemma_trim_start_shape(ls: Seq<ShownLine>)
    ensures
        trim_start(ls).len() <= ls.len(),
        trim_start(ls) == ls.skip(ls.len() - trim_start(ls).len()),
        trim_start(ls).len() > 0 ==> !is_blank(trim_start(ls)[0].0),
    decreases ls.len(),
{
    if ls.len() > 0 && is_blank(ls[0].0) {
        lemma_trim_start_shape(ls.drop_first());
        assert(ls.drop_first().skip(ls.drop_first().len() - trim_start(ls).len()) == ls.skip(ls.len() - trim_start(ls).len()));
    } else {
        assert(ls.skip(0) == ls);
    }
}

proof fn lemma_kept_from(c: Seq<CandidateLine>, j: int)
    requires
        0 <= j < kept(c).len(),
    ensures
        exists|i: int| 0 <= i < c.len() && c[i].0 == kept(c)[j].0 && c[i].1 == Some(kept(c)[j].1),
    decreases c.len(),
{
    let rest = kept(c.drop_last());
    if j < rest.len() {
        lemma_kept_from(c.drop_last(), j);
        let i = choose|i: int| 0 <= i < c.drop_last().len() && c.drop_last()[i].0 == rest[j].0 && c.drop_last()[i].1 == Some(rest[j].1);
        assert(c[i] == c.drop_last()[i]);
    } else {
        assert(c[c.len() - 1] == c.last());
    }
}

proof fn lemma_capped_prefix(ls: Seq<ShownLine>)
    ensures
        capped(ls).len() <= ls.len(),
        capped(ls) == ls.take(capped(ls).len() as int),
    decreases ls.len(),
{
    if ls.len() == 0 || nonblank_count(ls) <= MAX_CODE_LINES {
        assert(ls.take(ls.len() as int) == ls);
    } else {
        lemma_capped_prefix(ls.drop_last());
        assert(ls.drop_last().take(capped(ls).len() as int) == ls.take(capped(ls).len() as int));
    }
}

proof fn lemma_collapsed_from(ls: Seq<ShownLine>, j: int)
    requires
        0 <= j < collapsed(ls).len(),
    ensures
        exists|i: int| 0 <= i < ls.len() && ls[i] == collapsed(ls)[j],
    decreases ls.len(),
{
    let rest = collapsed(ls.drop_last());
    if j < rest.len() {
        lemma_collapsed_from(ls.drop_last(), j);
        let i = choose|i: int| 0 <= i < ls.drop_last().len() && ls.drop_last()[i] == rest[j];
        assert(ls[i] == ls.drop_last()[i]);
    } else {
        assert(ls[ls.len() - 1] == ls.last());
    }
}

/// At most ten non-blank lines are ever shown.
pub proof fn lemma_select_at_most_ten(c: Seq<CandidateLine>)
    ensures
        select(c) matches Some(ls) ==> nonblank_count(ls) <= MAX_CODE_LINES,
{
    let x = capped(kept(c));
    lemma_capped_count(kept(c));
    lemma_collapsed_count(x);
    lemma_trim_end_count(collapsed(x));
    lemma_trim_start_count(trim_end(collapsed(x)));
}

/// The shown lines never hold two blank lines in a row, and neither the first
/// nor the last shown line is blank.
pub proof fn lemma_select_well_spaced(c: Seq<CandidateLine>)
    ensures
        select(c) matches Some(ls) ==> well_spaced(ls),
{
    let x = collapsed(capped(kept(c)));
    let e = trim_end(x);
    let t = trim_start(e);
    lemma_collapsed_no_adjacent(capped(kept(c)));
    lemma_trim_end_shape(x);
    lemma_trim_start_shape(e);
    assert forall|i: int| 0 <= i < t.len() - 1 implies !(is_blank(#[trigger] t[i].0) && is_blank(t[i + 1].0)) by {
        let d = e.len() - t.len();
        assert(t[i] == e[i + d] && t[i + 1] == e[i + d + 1]);
        assert(e[i + d] == x[i + d] && e[i + d + 1] == x[i + d + 1]);
    }
    if t.len() > 0 {
        assert(t.last() == e.last());
    }
}

/// Every shown line is a candidate line that was not dropped, with its rendering.
pub proof fn lemma_select_from_candidates(c: Seq<CandidateLine>, j: int)
    requires
        select(c) matches Some(ls) && 0 <= j < ls.len(),
    ensures
        exists|i: int| 0 <= i < c.len() && c[i].0 == select(c)->Some_0[j].0 && c[i].1 == Some(select(c)->Some_0[j].1),
{
    let k = kept(c);
    let p = capped(k);
    let x = collapsed(p);
    let e = trim_end(x);
    let t = trim_start(e);
    lemma_trim_end_shape(x);
    lemma_trim_start_shape(e);
    let jx = j + (e.len() - t.len());
    assert(t[j] == e[jx] && e[jx] == x[jx]);
    lemma_collapsed_from(p, jx);
    let jp = choose|i: int| 0 <= i < p.len() && p[i] == x[jx];
    lemma_capped_prefix(k);
    assert(p[jp] == k[jp]);
    lemma_kept_from(c, jp);
}

/// A line wider than the terminal is cut so that with the gutter it fills the
/// width exactly; any other line is left as it is and fits.
pub proof fn lemma_cut_fills_width(l: Seq<char>, width: nat)
    requires
        width >= MIN_WIDTH,
    ensures
        l.len() + GUTTER_WIDTH > width ==> cut_line(l, width).len() + GUTTER_WIDTH == width,
        l.len() + GUTTER_WIDTH <= width ==> cut_line(l, width) == l,
        cut_line(l, width).len() + GUTTER_WIDTH <= width,
{
}


proof fn lemma_kept_all(c: Seq<CandidateLine>)
    requires
        forall|i: int| 0 <= i < c.len() ==> (#[trigger] c[i]).1 is Some,
    ensures
        kept(c).len() == c.len(),
        forall|i: int| 0 <= i < c.len() ==> #[trigger] kept(c)[i] == (c[i].0, c[i].1->Some_0),
    decreases c.len(),
{
    if c.len() > 0 {
        assert forall|i: int| 0 <= i < c.drop_last().len() implies (#[trigger] c.drop_last()[i]).1 is Some by {
            assert(c.drop_last()[i] == c[i]);
        }
        lemma_kept_all(c.drop_last());
        assert(c.last() == c[c.len() - 1]);
        assert forall|i: int| 0 <= i < c.len() implies #[trigger] kept(c)[i] == (c[i].0, c[i].1->Some_0) by {
            if i < c.len() - 1 {
                assert(c.drop_last()[i] == c[i]);
            }
        }
    }
}

proof fn lemma_all_nonblank(ls: Seq<ShownLine>)
    requires
        forall|i: int| 0 <= i < ls.len() ==> !is_blank((#[trigger] ls[i]).0),
    ensures
        nonblank_count(ls) == ls.len(),
        collapsed(ls) == ls,
    decreases ls.len(),
{
    if ls.len() > 0 {
        assert forall|i: int| 0 <= i < ls.drop_last().len() implies !is_blank((#[trigger] ls.drop_last()[i]).0) by {
            assert(ls.drop_last()[i] == ls[i]);
        }
        lemma_all_nonblank(ls.drop_last());
        assert(ls.last() == ls[ls.len() - 1]);
        assert(ls.drop_last().push(ls.last()) == ls);
    }
}

/// When every candidate line is kept and none is blank, and there are at
/// least ten, exactly the first ten are shown, in their order.
pub proof fn lemma_select_first_ten(c: Seq<CandidateLine>)
    requires
        c.len() >= MAX_CODE_LINES,
        forall|i: int| 0 <= i < c.len() ==> (#[trigger] c[i]).1 is Some && !is_blank(c[i].0),
    ensures
        select(c) matches Some(ls) && ls.len() == MAX_CODE_LINES
            && forall|i: int| 0 <= i < MAX_CODE_LINES ==> #[trigger] ls[i] == (c[i].0, c[i].1->Some_0),
{
    lemma_kept_all(c);
    let k = kept(c);
    assert forall|i: int| 0 <= i < k.len() implies !is_blank((#[trigger] k[i]).0) by {
        assert(k[i] == (c[i].0, c[i].1->Some_0));
    }
    let t = k.take(MAX_CODE_LINES as int);
    assert forall|i: int| 0 <= i < t.len() implies !is_blank((#[trigger] t[i]).0) by {
        assert(t[i] == k[i]);
    }
    lemma_all_nonblank(t);
    if k.len() > MAX_CODE_LINES {
        assert(!is_blank(k[MAX_CODE_LINES as int].0));
        lemma_capped_at(k, MAX_CODE_LINES as int);
    } else {
        assert(t == k);
        lemma_all_nonblank(k);
    }
    assert(capped(k) == t);
    assert(t.last() == t[t.len() - 1]);
    assert(trim_end(t) == t);
    assert(trim_start(t) == t);
    assert forall|i: int| 0 <= i < MAX_CODE_LINES implies #[trigger] t[i] == (c[i].0, c[i].1->Some_0) by {
        assert(t[i] == k[i]);
    }
}

} // verus!
