//! One round of the game: the answer options, the timed reveal of the code
//! lines with its shrinking pool of points, and the scoring of an answer.
use vstd::prelude::*;
use vstd::string::{StrSliceExecFns, StringExecFns};
use std::ops::ControlFlow;
use rand::Rng;
use rand::seq::SliceRandom;
use crate::terminal::Terminal;

verus! {

/// The prompt shown above the options.
pub const PROMPT: &'static str = "Which programming language is this? (Type the corresponding number)";

/// Every language a snippet can be in.
pub const LANGUAGES: [&'static str; 25] = [
    "Assembly",
    "Shell",
    "C",
    "C#",
    "C++",
    "CSS",
    "Dart",
    "Dockerfile",
    "Go",
    "Groovy",
    "HTML",
    "Java",
    "JavaScript",
    "Kotlin",
    "Lua",
    "MATLAB",
    "PHP",
    "PowerShell",
    "Python",
    "R",
    "Ruby",
    "Rust",
    "SQL",
    "Swift",
    "TypeScript",
];

/// How many options a round offers.
pub const OPTION_COUNT: usize = 4;

/// The points on offer before any line is revealed.
pub const START_POINTS: i64 = 100;

/// The points lost by each revealed line after the first.
pub const POINTS_PER_LINE: i64 = 10;

/// The wait before each revealed line after the first, in milliseconds.
pub const LINE_WAIT_MILLIS: u64 = 1500;

pub open spec fn texts(v: Seq<&str>) -> Seq<Seq<char>> {
    v.map_values(|s: &str| s@)
}

pub open spec fn is_language(s: Seq<char>) -> bool {
    texts(LANGUAGES@).contains(s)
}

/// A valid option set for `correct`: four distinct names, the correct one
/// among them, every other one from the catalogue.
pub open spec fn valid_options(options: Seq<Seq<char>>, correct: Seq<char>) -> bool {
    &&& options.len() == OPTION_COUNT
    &&& options.no_duplicates()
    &&& options.contains(correct)
    &&& forall|i: int| 0 <= i < options.len() ==> (#[trigger] options[i]) == correct || is_language(options[i])
}

/// Relies on rand's Rng::gen_range on the thread's generator: a number below `n`.
#[verifier::external_body]
fn random_below(n: usize) -> (r: usize)
    requires
        n > 0,
    ensures
        r < n,
{
    rand::thread_rng().gen_range(0..n)
}

/// Relies on rand's SliceRandom::shuffle on the thread's generator: the same
/// items in some order.
#[verifier::external_body]
pub(crate) fn shuffle<T>(v: &mut Vec<T>)
    ensures
        final(v)@.to_multiset() == old(v)@.to_multiset(),
{
    v.shuffle(&mut rand::thread_rng());
}

/// Whether two strings hold the same characters.
pub fn same_text(a: &str, b: &str) -> (r: bool)
    ensures
        r == (a@ == b@),
{
    let n = a.unicode_len();
    if n != b.unicode_len() {
        return false;
    }
    let mut i: usize = 0;
    while i < n
        invariant
            n == a@.len() == b@.len(),
            i <= n,
            a@.take(i as int) == b@.take(i as int),
        decreases n - i,
    {
        if a.get_char(i) != b.get_char(i) {
            return false;
        }
        assert(a@.take(i + 1) == a@.take(i as int).push(a@[i as int]));
        assert(b@.take(i + 1) == b@.take(i as int).push(b@[i as int]));
        i = i + 1;
    }
    assert(a@.take(n as int) == a@ && b@.take(n as int) == b@);
    true
}

proof fn lemma_catalogue_distinct()
    ensures
        texts(LANGUAGES@).no_duplicates(),
        texts(LANGUAGES@).len() == 25,
{
    reveal_strlit("Assembly");
    reveal_strlit("Shell");
    reveal_strlit("C");
    reveal_strlit("C#");
    reveal_strlit("C++");
    reveal_strlit("CSS");
    reveal_strlit("Dart");
    reveal_strlit("Dockerfile");
    reveal_strlit("Go");
    reveal_strlit("Groovy");
    reveal_strlit("HTML");
    reveal_strlit("Java");
    reveal_strlit("JavaScript");
    reveal_strlit("Kotlin");
    reveal_strlit("Lua");
    reveal_strlit("MATLAB");
    reveal_strlit("PHP");
    reveal_strlit("PowerShell");
    reveal_strlit("Python");
    reveal_strlit("R");
    reveal_strlit("Ruby");
    reveal_strlit("Rust");
    reveal_strlit("SQL");
    reveal_strlit("Swift");
    reveal_strlit("TypeScript");
    let t = texts(LANGUAGES@);
    assert forall|i: int, j: int| 0 <= i < t.len() && 0 <= j < t.len() && i != j implies t[i] != t[j] by {
        if t[i] == t[j] {
            assert(t[i].len() == t[j].len());
            assert(t[i][0] == t[j][0]);
            assert(t[i][1] == t[j][1]);
            assert(t[i][2] == t[j][2]);
        }
    }
}

/// Whether `language` is one of the game's languages.
pub fn is_supported_language(language: &str) -> (r: bool)
    ensures
        r == is_language(language@),
{
    let mut i: usize = 0;
    while i < LANGUAGES.len()
        invariant
            i <= 25,
            forall|j: int| 0 <= j < i ==> (#[trigger] texts(LANGUAGES@)[j]) != language@,
        decreases 25 - i,
    {
        if same_text(LANGUAGES[i], language) {
            assert(texts(LANGUAGES@)[i as int] == language@);
            return true;
        }
        i = i + 1;
    }
    false
}

/// The points on offer once `revealed` lines have been shown: the first line
/// is free, each later one costs ten points.
pub open spec fn points_after(revealed: nat) -> int {
    if revealed == 0 {
        START_POINTS as int
    } else {
        START_POINTS - POINTS_PER_LINE * (revealed - 1)
    }
}

/// The whole points a correct answer earns from the pool: nothing once the
/// pool is below zero.
pub open spec fn award(points: int) -> nat {
    if points < 0 {
        0
    } else if points > u32::MAX {
        u32::MAX as nat
    } else {
        points as nat
    }
}

/// What the reveal of the code lines does next.
#[derive(Clone, Copy, Debug, PartialEq, Eq, Structural)]
pub enum RevealAction {
    /// Wait this long, then show the line with this index.
    Wait { line: usize, millis: u64 },
    /// Show nothing more.
    Stop,
}

/// How a wait of the reveal ended.
#[derive(Clone, Copy, Debug, PartialEq, Eq, Structural)]
pub enum WaitOutcome {
    /// The time passed: the line is shown.
    Elapsed,
    /// The player answered: nothing more is shown.
    Cancelled,
}

/// The timed reveal of a snippet's lines, one at a time, each revealed line
/// after the first taking ten points from the pool on offer.
pub struct RevealScheduler {
    /// The line indices in the order they are revealed.
    pub order: Vec<usize>,
    /// Which lines are blank; blank lines are passed over.
    pub blank: Vec<bool>,
    /// The position in `order` of the next line to consider.
    pub next: usize,
    /// How many lines have been revealed.
    pub revealed: u64,
    /// The points on offer.
    pub available: i64,
    /// Whether the player has answered.
    pub cancelled: bool,
    /// The wait before the first revealed line, in milliseconds.
    pub initial_wait: u64,
}

/// The first position from `k` on whose line is not blank, or the end.
pub open spec fn next_shown(order: Seq<usize>, blank: Seq<bool>, k: int) -> int
    decreases order.len() - k,
{
    if k < 0 || k >= order.len() {
        order.len() as int
    } else if blank[order[k] as int] {
        next_shown(order, blank, k + 1)
    } else {
        k
    }
}

/// The scheduler once blank lines are passed over; nothing moves once the
/// player has answered.
pub open spec fn skip_blank(s: RevealScheduler) -> RevealScheduler {
    if s.cancelled {
        s
    } else {
        RevealScheduler { next: next_shown(s.order@, s.blank@, s.next as int) as usize, ..s }
    }
}

/// What the reveal does next from `s`: nothing once the player has answered
/// or the lines are used up; otherwise a wait for the line at `next`,
/// `initial_wait` ms before the first revealed line and 1500 ms later on.
pub open spec fn action_of(s: RevealScheduler) -> RevealAction {
    if s.cancelled || s.next >= s.order.len() {
        RevealAction::Stop
    } else {
        RevealAction::Wait {
            line: s.order@[s.next as int],
            millis: if s.revealed == 0 { s.initial_wait } else { LINE_WAIT_MILLIS },
        }
    }
}

/// The scheduler once a wait ends: the line is revealed and, unless it is the
/// first, costs ten points; or the player answered and the reveal stops.
pub open spec fn after_wait(s: RevealScheduler, outcome: WaitOutcome) -> RevealScheduler {
    match outcome {
        WaitOutcome::Elapsed => RevealScheduler {
            next: (s.next + 1) as usize,
            revealed: (s.revealed + 1) as u64,
            available: (s.available - if s.revealed == 0 { 0 } else { POINTS_PER_LINE }) as i64,
            ..s
        },
        WaitOutcome::Cancelled => RevealScheduler { cancelled: true, ..s },
    }
}

/// One step of the reveal: pass over blank lines, then, when there is a line
/// to wait for, end the wait with `outcome`.
pub open spec fn step(s: RevealScheduler, outcome: WaitOutcome) -> RevealScheduler {
    let t = skip_blank(s);
    if action_of(t) is Stop {
        t
    } else {
        after_wait(t, outcome)
    }
}

/// The reveal after a run of steps whose waits end as `outcomes` say.
pub open spec fn run(s: RevealScheduler, outcomes: Seq<WaitOutcome>) -> RevealScheduler
    decreases outcomes.len(),
{
    if outcomes.len() == 0 {
        s
    } else {
        step(run(s, outcomes.drop_last()), outcomes.last())
    }
}

/// The reveal is over: the player answered or every line was considered.
pub open spec fn is_over(s: RevealScheduler) -> bool {
    s.cancelled || s.next >= s.order.len()
}

impl RevealScheduler {
    /// The order is a permutation of the line indices, the pool matches the
    /// lines revealed, and the pool can be held in an `i64`.
    pub open spec fn wf(&self) -> bool {
        &&& self.order.len() <= u32::MAX
        &&& self.order.len() == self.blank.len()
        &&& self.order@.no_duplicates()
        &&& forall|k: int| 0 <= k < self.order.len() ==> self.order@[k] < self.blank.len()
        &&& self.next <= self.order.len()
        &&& self.revealed <= self.next
        &&& self.available == points_after(self.revealed as nat)
    }

    /// A reveal of the lines whose blankness is `blank`, in the given order
    /// (a permutation of the line indices), waiting `initial_wait` ms before
    /// the first line.
    pub fn new(order: Vec<usize>, blank: Vec<bool>, initial_wait: u64) -> (r: RevealScheduler)
        requires
            order.len() <= u32::MAX,
            order.len() == blank.len(),
            order@.no_duplicates(),
            forall|k: int| 0 <= k < order.len() ==> order@[k] < blank.len(),
        ensures
            r.wf(),
            r.order == order,
            r.blank == blank,
            r.next == 0,
            r.revealed == 0,
            r.available == START_POINTS,
            !r.cancelled,
            r.initial_wait == initial_wait,
    {
        RevealScheduler { order, blank, next: 0, revealed: 0, available: START_POINTS, cancelled: false, initial_wait }
    }

    /// Passes over blank lines and says what comes next (see `skip_blank`
    /// and `action_of`).
    pub fn next_action(&mut self) -> (r: RevealAction)
        requires
            old(self).wf(),
        ensures
            final(self).wf(),
            *final(self) == skip_blank(*old(self)),
            r == action_of(*final(self)),
            old(self).cancelled ==> r is Stop && *final(self) == *old(self),
            r matches RevealAction::Wait { line, .. } ==> !final(self).blank@[line as int],
    {
        if self.cancelled {
            return RevealAction::Stop;
        }
        while self.next < self.order.len() && self.blank[self.order[self.next]]
            invariant
                self.wf(),
                !self.cancelled,
                *self == (RevealScheduler { next: self.next, ..*old(self) }),
                next_shown(self.order@, self.blank@, self.next as int)
                    == next_shown(old(self).order@, old(self).blank@, old(self).next as int),
            decreases self.order.len() - self.next,
        {
            self.next = self.next + 1;
        }
        if self.next == self.order.len() {
            RevealAction::Stop
        } else {
            let millis = if self.revealed == 0 { self.initial_wait } else { LINE_WAIT_MILLIS };
            RevealAction::Wait { line: self.order[self.next], millis }
        }
    }

    /// Ends the wait announced by `next_action` (see `after_wait`): the line
    /// is revealed and returned, or nothing when the player answered.
    pub fn finish_wait(&mut self, outcome: WaitOutcome) -> (r: Option<usize>)
        requires
            old(self).wf(),
            !old(self).cancelled,
            old(self).next < old(self).order.len(),
        ensures
            final(self).wf(),
            *final(self) == after_wait(*old(self), outcome),
            r == (match outcome {
                WaitOutcome::Elapsed => Some(old(self).order@[old(self).next as int]),
                WaitOutcome::Cancelled => None::<usize>,
            }),
    {
        match outcome {
            WaitOutcome::Elapsed => {
                let line = self.order[self.next];
                if self.revealed > 0 {
                    assert(POINTS_PER_LINE * (self.revealed - 1) <= POINTS_PER_LINE * u32::MAX) by (nonlinear_arith)
                        requires self.revealed <= u32::MAX;
                    self.available = self.available - POINTS_PER_LINE;
                }
                self.next = self.next + 1;
                self.revealed = self.revealed + 1;
                Some(line)
            },
            WaitOutcome::Cancelled => {
                self.cancelled = true;
                None
            },
        }
    }
}

proof fn lemma_next_shown_bounds(order: Seq<usize>, blank: Seq<bool>, k: int)
    requires
        0 <= k <= order.len(),
    ensures
        k <= next_shown(order, blank, k) <= order.len(),
        next_shown(order, blank, k) < order.len() ==> !blank[order[next_shown(order, blank, k)] as int],
    decreases order.len() - k,
{
    if k < order.len() && blank[order[k] as int] {
        lemma_next_shown_bounds(order, blank, k + 1);
    }
}

proof fn lemma_step_wf(s: RevealScheduler, outcome: WaitOutcome)
    requires
        s.wf(),
    ensures
        step(s, outcome).wf(),
        step(s, outcome).available <= s.available,
        step(s, outcome).revealed >= s.revealed,
        step(s, outcome).order == s.order,
        is_over(s) ==> step(s, outcome) == s,
        !is_over(step(s, outcome)) ==> step(s, outcome).revealed == s.revealed + 1,
        outcome is Cancelled ==> is_over(step(s, outcome)) && step(s, outcome).revealed == s.revealed,
{
    if !s.cancelled {
        lemma_next_shown_bounds(s.order@, s.blank@, s.next as int);
    }
    let t = skip_blank(s);
    if !(action_of(t) is Stop) && outcome is Elapsed && s.revealed > 0 {
        assert(POINTS_PER_LINE * (s.revealed - 1) <= POINTS_PER_LINE * u32::MAX) by (nonlinear_arith)
            requires s.revealed <= u32::MAX;
    }
    if is_over(s) && !s.cancelled {
        assert(next_shown(s.order@, s.blank@, s.next as int) == s.order.len());
    }
}

/// Over any run of the reveal the pool starts at a hundred, only shrinks,
/// and always stands at a hundred less ten for each revealed line after the
/// first.
pub proof fn lemma_run_pool(s: RevealScheduler, outcomes: Seq<WaitOutcome>)
    requires
        s.wf(),
    ensures
        run(s, outcomes).wf(),
        run(s, outcomes).available <= s.available,
        run(s, outcomes).available == points_after(run(s, outcomes).revealed as nat),
        run(s, outcomes).revealed >= 1 ==> run(s, outcomes).available
            == START_POINTS - POINTS_PER_LINE * (run(s, outcomes).revealed - 1),
        s.revealed == 0 ==> points_after(s.revealed as nat) == START_POINTS,
    decreases outcomes.len(),
{
    if outcomes.len() > 0 {
        lemma_run_pool(s, outcomes.drop_last());
        lemma_step_wf(run(s, outcomes.drop_last()), outcomes.last());
    }
}

proof fn lemma_run_over(s: RevealScheduler, outcomes: Seq<WaitOutcome>)
    requires
        s.wf(),
        is_over(s),
    ensures
        run(s, outcomes) == s,
    decreases outcomes.len(),
{
    if outcomes.len() > 0 {
        lemma_run_over(s, outcomes.drop_last());
        lemma_step_wf(s, outcomes.last());
    }
}

/// Once the player answers, no further line is revealed: after a step whose
/// wait ends in a cancel, every later step leaves the reveal as it is.
pub proof fn lemma_run_cancel(s: RevealScheduler, outcomes: Seq<WaitOutcome>, j: int, m: int)
    requires
        s.wf(),
        0 <= j < m <= outcomes.len(),
        outcomes[j] is Cancelled,
    ensures
        run(s, outcomes.take(m)) == run(s, outcomes.take(j + 1)),
        run(s, outcomes.take(m)).revealed == run(s, outcomes.take(j)).revealed,
{
    let before = run(s, outcomes.take(j));
    lemma_run_pool(s, outcomes.take(j));
    assert(outcomes.take(j + 1).drop_last() == outcomes.take(j));
    lemma_step_wf(before, outcomes[j]);
    let after = run(s, outcomes.take(j + 1));
    let rest = outcomes.subrange(j + 1, m);
    lemma_run_over(after, rest);
    lemma_run_split(s, outcomes.take(j + 1), rest);
    assert(outcomes.take(j + 1) + rest == outcomes.take(m));
}

proof fn lemma_run_split(s: RevealScheduler, a: Seq<WaitOutcome>, b: Seq<WaitOutcome>)
    ensures
        run(s, a + b) == run(run(s, a), b),
    decreases b.len(),
{
    if b.len() > 0 {
        assert((a + b).drop_last() == a + b.drop_last());
        lemma_run_split(s, a, b.drop_last());
    } else {
        assert(a + b == a);
    }
}

/// The order in which a snippet's `n` lines are revealed: every index once,
/// in random order when `shuffled`, else from the top.
pub fn reveal_order(n: usize, shuffled: bool) -> (r: Vec<usize>)
    ensures
        r.len() == n,
        r@.no_duplicates(),
        forall|k: int| 0 <= k < n ==> r@[k] < n,
        !shuffled ==> forall|k: int| 0 <= k < n ==> r@[k] == k,
{
    let mut v: Vec<usize> = Vec::new();
    let mut i: usize = 0;
    while i < n
        invariant
            i <= n,
            v.len() == i,
            forall|k: int| 0 <= k < i ==> v@[k] == k,
        decreases n - i,
    {
        v.push(i);
        i = i + 1;
    }
    let ghost pre = v@;
    assert(pre.no_duplicates());
    if shuffled {
        shuffle(&mut v);
        proof {
            let post = v@;
            broadcast use vstd::seq_lib::group_to_multiset_ensures;
            assert(post.len() == pre.len()) by {
                assert(post.to_multiset().len() == pre.to_multiset().len());
            }
            pre.lemma_multiset_has_no_duplicates();
            post.lemma_multiset_has_no_duplicates_conv();
            assert forall|k: int| 0 <= k < n implies post[k] < n by {
                assert(post.contains(post[k]));
                assert(pre.to_multiset().count(post[k]) > 0);
                assert(pre.contains(post[k]));
            }
        }
    }
    v
}

/// The pool on offer only shrinks, by ten for each revealed line after the
/// first, starting from a hundred.
pub proof fn lemma_points_shrink(revealed: nat)
    ensures
        points_after(0) == START_POINTS,
        points_after(1) == START_POINTS,
        points_after(revealed + 1) <= points_after(revealed),
        revealed >= 1 ==> points_after(revealed + 1) == points_after(revealed) - POINTS_PER_LINE,
{
}

/// An answer given once the `k`-th line is revealed (`k >= 1`) earns
/// `100 - 10 * (k - 1)` points, or nothing once that is below zero.
pub proof fn lemma_award_on_line(s: RevealScheduler, k: nat)
    requires
        s.wf(),
        k >= 1,
        s.revealed == k,
    ensures
        award(s.available as int) == if 100 - 10 * (k - 1) < 0 { 0 } else { (100 - 10 * (k - 1)) as nat },
{
}

/// A key the player pressed that the game listens to.
#[derive(Clone, Copy, Debug, PartialEq, Eq, Structural)]
pub enum Key {
    /// One of the option keys, 1 to 4.
    Digit(u32),
    /// Quit the game.
    Quit,
    /// Leave the game with Ctrl-C.
    Skip,
}

/// The key pressed, from its character and whether Control was the only
/// modifier held; `None` for every key the game ignores.
pub fn key_of(c: char, control: bool) -> (r: Option<Key>)
    ensures
        r == (match c {
            '1' => Some(Key::Digit(1)),
            '2' => Some(Key::Digit(2)),
            '3' => Some(Key::Digit(3)),
            '4' => Some(Key::Digit(4)),
            'q' => Some(Key::Quit),
            'c' if control => Some(Key::Skip),
            _ => None,
        }),
{
    match c {
        '1' => Some(Key::Digit(1)),
        '2' => Some(Key::Digit(2)),
        '3' => Some(Key::Digit(3)),
        '4' => Some(Key::Digit(4)),
        'q' => Some(Key::Quit),
        'c' => if control { Some(Key::Skip) } else { None },
        _ => None,
    }
}

/// Where snippets come from.
#[derive(Clone, Copy, Debug, PartialEq, Eq, Structural)]
pub enum ProviderKind {
    /// Public gists.
    Gists,
    /// Files of public repositories.
    Repos,
}

/// Why a game could not start.
#[derive(Clone, Copy, Debug, PartialEq, Eq, Structural)]
pub enum GameError {
    /// The provider asked for is neither "gists" nor "repos".
    InvalidProvider,
}

/// The provider asked for on the command line; repositories when none is.
pub fn provider_kind(arg: Option<String>) -> (r: Result<ProviderKind, GameError>)
    ensures
        r == (match arg {
            None => Ok(ProviderKind::Repos),
            Some(s) if s@ == "gists"@ => Ok(ProviderKind::Gists),
            Some(s) if s@ == "repos"@ => Ok(ProviderKind::Repos),
            _ => Err::<ProviderKind, GameError>(GameError::InvalidProvider),
        }),
{
    match arg {
        None => Ok(ProviderKind::Repos),
        Some(s) => if s == String::from_str("gists") {
            Ok(ProviderKind::Gists)
        } else if s == String::from_str("repos") {
            Ok(ProviderKind::Repos)
        } else {
            Err(GameError::InvalidProvider)
        },
    }
}

/// Why a round could not be scored.
#[derive(Clone, Copy, Debug, PartialEq, Eq, Structural)]
pub enum RoundError {
    /// The correct language is not among the options.
    CorrectLanguageMissing,
}

/// The outcome of an answer.
pub struct Answer {
    /// Whether the game goes on.
    pub flow: ControlFlow<()>,
    /// The position of the correct option.
    pub correct_index: usize,
    /// Whether the chosen option was the correct one.
    pub was_correct: bool,
    /// The points earned.
    pub awarded: u32,
}

/// The position of the first option that reads `correct`.
pub fn position_of(options: &Vec<&str>, correct: &str) -> (r: Option<usize>)
    ensures
        match r {
            Some(k) => k < options.len() && options@[k as int]@ == correct@
                && forall|j: int| 0 <= j < k ==> (#[trigger] options@[j])@ != correct@,
            None => forall|j: int| 0 <= j < options.len() ==> (#[trigger] options@[j])@ != correct@,
        },
{
    let mut i: usize = 0;
    while i < options.len()
        invariant
            i <= options.len(),
            forall|j: int| 0 <= j < i ==> (#[trigger] options@[j])@ != correct@,
        decreases options.len() - i,
    {
        if same_text(options[i], correct) {
            return Some(i);
        }
        i = i + 1;
    }
    None
}

/// The total after adding `awarded` points, held at the largest `u32`.
pub open spec fn added(total: u32, awarded: nat) -> u32 {
    if total + awarded > u32::MAX {
        u32::MAX
    } else {
        (total + awarded) as u32
    }
}

/// How the player ended a round.
pub enum Resolution {
    /// The player quit or pressed Ctrl-C: the game ends, the score unchanged.
    Left,
    /// The player chose an option.
    Answered(Answer),
}

impl Resolution {
    /// Whether the game goes on after this round.
    pub fn flow(&self) -> (r: ControlFlow<()>)
        ensures
            r == (match self {
                Resolution::Left => ControlFlow::Break(()),
                Resolution::Answered(a) => a.flow,
            }),
    {
        match self {
            Resolution::Left => ControlFlow::Break(()),
            Resolution::Answered(a) => a.flow,
        }
    }
}

impl Terminal {
    /// Scores the option numbered `num` (from 1): when it holds the correct
    /// language, the points on offer (whole, none below zero) are added to
    /// the total and the game goes on; otherwise the total is kept and the
    /// game ends. Fails when the correct language is not among the options.
    pub fn process_input(
        &self,
        num: u32,
        options: &Vec<&str>,
        correct_language: &str,
        available_points: i64,
        total_points: &mut u32,
    ) -> (r: Result<Answer, RoundError>)
        requires
            1 <= num <= options.len(),
        ensures
            (forall|j: int| 0 <= j < options.len() ==> (#[trigger] options@[j])@ != correct_language@)
                ==> r == Err::<Answer, RoundError>(RoundError::CorrectLanguageMissing),
            r is Err ==> *final(total_points) == *old(total_points)
                && forall|j: int| 0 <= j < options.len() ==> (#[trigger] options@[j])@ != correct_language@,
            r matches Ok(a) ==> {
                &&& a.correct_index < options.len()
                &&& options@[a.correct_index as int]@ == correct_language@
                &&& forall|j: int| 0 <= j < a.correct_index ==> (#[trigger] options@[j])@ != correct_language@
                &&& a.was_correct == (a.correct_index + 1 == num)
                &&& a.was_correct ==> {
                    &&& a.awarded == award(available_points as int)
                    &&& *final(total_points) == added(*old(total_points), a.awarded as nat)
                    &&& a.flow == ControlFlow::<()>::Continue(())
                }
                &&& !a.was_correct ==> {
                    &&& a.awarded == 0
                    &&& *final(total_points) == *old(total_points)
                    &&& a.flow == ControlFlow::<()>::Break(())
                }
            },
    {
        let correct_index = match position_of(options, correct_language) {
            Some(k) => k,
            None => return Err(RoundError::CorrectLanguageMissing),
        };
        let was_correct = correct_index + 1 == num as usize;
        if was_correct {
            let awarded: u32 = if available_points < 0 {
                0
            } else if available_points > u32::MAX as i64 {
                u32::MAX
            } else {
                available_points as u32
            };
            *total_points = total_points.saturating_add(awarded);
            Ok(Answer { flow: ControlFlow::Continue(()), correct_index, was_correct, awarded })
        } else {
            Ok(Answer { flow: ControlFlow::Break(()), correct_index, was_correct, awarded: 0 })
        }
    }
}

/// The game: the points scored so far and what it needs to show code.
pub struct Game {
    pub points: u32,
    pub terminal: Terminal,
}

impl Game {
    /// Ends the round with the key the player pressed: quitting leaves the
    /// score as it is; an option is scored (see `Terminal::process_input`).
    pub fn answer(&mut self, key: Key, options: &Vec<&str>, correct_language: &str, available_points: i64)
        -> (r: Result<Resolution, RoundError>)
        requires
            key matches Key::Digit(n) ==> 1 <= n <= options.len(),
        ensures
            final(self).terminal == old(self).terminal,
            (key is Quit || key is Skip) ==> (r matches Ok(Resolution::Left)) && final(self).points == old(self).points,
            key matches Key::Digit(n) ==> match r {
                Ok(Resolution::Answered(a)) => {
                    &&& a.correct_index < options.len()
                    &&& options@[a.correct_index as int]@ == correct_language@
                    &&& forall|j: int| 0 <= j < a.correct_index ==> (#[trigger] options@[j])@ != correct_language@
                    &&& a.was_correct == (a.correct_index + 1 == n)
                    &&& a.was_correct ==> final(self).points == added(old(self).points, award(available_points as int))
                        && a.flow == ControlFlow::<()>::Continue(())
                    &&& !a.was_correct ==> final(self).points == old(self).points
                        && a.flow == ControlFlow::<()>::Break(())
                },
                Ok(Resolution::Left) => false,
                Err(e) => e == RoundError::CorrectLanguageMissing && final(self).points == old(self).points
                    && forall|j: int| 0 <= j < options.len() ==> (#[trigger] options@[j])@ != correct_language@,
            },
    {
        match key {
            Key::Digit(n) => {
                match self.terminal.process_input(n, options, correct_language, available_points, &mut self.points) {
                    Ok(a) => Ok(Resolution::Answered(a)),
                    Err(e) => Err(e),
                }
            },
            _ => Ok(Resolution::Left),
        }
    }

    /// The high score to keep once the game ends: the score, when it beats
    /// `high_score`.
    pub fn new_high_score(&self, high_score: u32) -> (r: Option<u32>)
        ensures
            r == if self.points > high_score { Some(self.points) } else { None::<u32> },
    {
        if self.points > high_score {
            Some(self.points)
        } else {
            None
        }
    }

    /// Whether the end of the game congratulates the player on beating an
    /// earlier, non-zero high score.
    pub fn beats_record(&self, high_score: u32) -> (r: bool)
        ensures
            r == (self.points > high_score && high_score > 0),
    {
        self.points > high_score && high_score > 0
    }
}

impl Game {
    /// Four options for a round: the correct language and three other languages
    /// of the catalogue, each drawn at random, in random order.
    pub fn get_options<'a>(correct_language: &'a str) -> (r: Vec<&'a str>)
        ensures
            valid_options(texts(r@), correct_language@),
    {
        proof {
            lemma_catalogue_distinct();
        }
        let ghost cat = texts(LANGUAGES@);
        // The languages still free to be drawn.
        let mut pool: Vec<&'a str> = Vec::new();
        let mut i: usize = 0;
        while i < LANGUAGES.len()
            invariant
                i <= 25,
                cat == texts(LANGUAGES@),
                cat.no_duplicates(),
                cat.len() == 25,
                texts(pool@).no_duplicates(),
                !texts(pool@).contains(correct_language@),
                forall|k: int| 0 <= k < pool.len() ==> is_language(#[trigger] texts(pool@)[k]),
                forall|k: int| 0 <= k < pool.len() ==> exists|m: int| 0 <= m < i && cat[m] == #[trigger] texts(pool@)[k],
                pool.len() + (if exists|m: int| 0 <= m < i && cat[m] == correct_language@ { 1int } else { 0int }) == i,
            decreases 25 - i,
        {
            let lang: &'static str = LANGUAGES[i];
            assert(cat[i as int] == lang@);
            let ghost before = pool@;
            if !same_text(lang, correct_language) {
                pool.push(lang);
                assert(texts(pool@) == texts(before).push(lang@));
                assert forall|a: int, b: int| 0 <= a < texts(pool@).len() && 0 <= b < texts(pool@).len() && a != b
                    implies texts(pool@)[a] != texts(pool@)[b] by {
                    if a == before.len() || b == before.len() {
                        let o = if a == before.len() { b } else { a };
                        let m = choose|m: int| 0 <= m < i && cat[m] == texts(before)[o];
                        assert(cat[m] != cat[i as int]);
                    }
                }
                assert forall|k: int| 0 <= k < pool.len() implies exists|m: int| 0 <= m < i + 1 && cat[m] == #[trigger] texts(pool@)[k] by {
                    if k == before.len() {
                        assert(cat[i as int] == texts(pool@)[k]);
                    } else {
                        assert(texts(pool@)[k] == texts(before)[k]);
                    }
                }
                assert(cat.contains(lang@)) by { assert(cat[i as int] == lang@); }
                proof {
                    if exists|m: int| 0 <= m < i + 1 && cat[m] == correct_language@ {
                        let m = choose|m: int| 0 <= m < i + 1 && cat[m] == correct_language@;
                        assert(m != i);
                    }
                }
            } else {
                assert(exists|m: int| 0 <= m < i + 1 && cat[m] == correct_language@) by { assert(cat[i as int] == correct_language@); }
                proof {
                    if exists|m: int| 0 <= m < i && cat[m] == correct_language@ {
                        let m = choose|m: int| 0 <= m < i && cat[m] == correct_language@;
                        assert(cat[m] == cat[i as int]);
                    }
                }
            }
            i = i + 1;
        }
        let mut options: Vec<&'a str> = Vec::new();
        options.push(correct_language);
        assert(texts(options@) == seq![correct_language@]);
        while options.len() < OPTION_COUNT
            invariant
                1 <= options.len() <= OPTION_COUNT,
                pool.len() + options.len() >= 24,
                texts(options@)[0] == correct_language@,
                texts(options@).no_duplicates(),
                texts(pool@).no_duplicates(),
                forall|k: int| 0 <= k < pool.len() ==> is_language(#[trigger] texts(pool@)[k]),
                forall|k: int| 0 <= k < pool.len() ==> !texts(options@).contains(#[trigger] texts(pool@)[k]),
                forall|k: int| 1 <= k < options.len() ==> is_language(#[trigger] texts(options@)[k]),
            decreases OPTION_COUNT - options.len(),
        {
            let k = random_below(pool.len());
            let ghost before = options@;
            let ghost pool_before = pool@;
            let lang = pool.remove(k);
            assert(lang@ == texts(pool_before)[k as int]);
            options.push(lang);
            assert(texts(options@) == texts(before).push(lang@));
            assert(texts(pool@) == texts(pool_before).remove(k as int));
            assert forall|a: int, b: int| 0 <= a < texts(options@).len() && 0 <= b < texts(options@).len() && a != b
                implies texts(options@)[a] != texts(options@)[b] by {
                if a == before.len() {
                    assert(texts(options@)[b] == texts(before)[b]);
                } else if b == before.len() {
                    assert(texts(options@)[a] == texts(before)[a]);
                }
            }
            assert forall|j: int| 0 <= j < pool.len() implies !texts(options@).contains(#[trigger] texts(pool@)[j]) by {
                let jj = if j < k { j } else { j + 1 };
                assert(texts(pool@)[j] == texts(pool_before)[jj]);
                assert(jj != k);
                if texts(options@).contains(texts(pool@)[j]) {
                    let w = choose|w: int| 0 <= w < texts(options@).len() && texts(options@)[w] == texts(pool@)[j];
                    if w < before.len() {
                        assert(texts(before).contains(texts(pool_before)[jj]));
                    }
                }
            }
            assert forall|j: int| 0 <= j < pool.len() implies is_language(#[trigger] texts(pool@)[j]) by {
                let jj = if j < k { j } else { j + 1 };
                assert(texts(pool@)[j] == texts(pool_before)[jj]);
            }
        }
        let ghost pre = options@;
        assert(pre.len() == OPTION_COUNT);
        shuffle(&mut options);
        proof {
            let post = options@;
            broadcast use vstd::seq_lib::group_to_multiset_ensures;
            assert(post.len() == pre.len()) by {
                assert(post.to_multiset().len() == pre.to_multiset().len());
            }
            // Every option after the shuffle is one of before.
            assert forall|a: int| 0 <= a < post.len() implies exists|b: int| 0 <= b < pre.len() && pre[b] == #[trigger] post[a] by {
                assert(post.contains(post[a]));
                assert(pre.to_multiset().count(post[a]) > 0);
                assert(pre.contains(post[a]));
            }
            assert(texts(pre).no_duplicates());
            assert(pre.no_duplicates()) by {
                assert forall|a: int, b: int| 0 <= a < pre.len() && 0 <= b < pre.len() && a != b implies pre[a] != pre[b] by {
                    assert(texts(pre)[a] != texts(pre)[b]);
                }
            }
            pre.lemma_multiset_has_no_duplicates();
            post.lemma_multiset_has_no_duplicates_conv();
            assert forall|a: int, b: int| 0 <= a < post.len() && 0 <= b < post.len() && a != b
                implies texts(post)[a] != texts(post)[b] by {
                let x = choose|x: int| 0 <= x < pre.len() && pre[x] == post[a];
                let y = choose|y: int| 0 <= y < pre.len() && pre[y] == post[b];
                if x == y {
                    assert(post[a] == post[b]);
                } else {
                    assert(texts(pre)[x] != texts(pre)[y]);
                }
            }
            assert(pre.contains(pre[0]));
            assert(post.to_multiset().count(pre[0]) > 0);
            assert(post.contains(pre[0]));
            let w = choose|w: int| 0 <= w < post.len() && post[w] == pre[0];
            assert(texts(post)[w] == correct_language@);
            assert forall|a: int| 0 <= a < post.len() implies (#[trigger] texts(post)[a]) == correct_language@ || is_language(texts(post)[a]) by {
                let x = choose|x: int| 0 <= x < pre.len() && pre[x] == post[a];
                assert(texts(post)[a] == texts(pre)[x]);
            }
        }
        options
    }
}

} // verus!
