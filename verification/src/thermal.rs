//! Execution phases, target selection and the text heatmap.
use crate::db;
use crate::db::{AgentLogEntry, CoolLock, DbError, ThermalAggregate};
use crate::score;
use crate::score::Score;
use crate::text::bytes;
use crate::text::chars;
use crate::text::chars::{concat2, concat3, own, same};
use crate::text::number;
use crate::text::number::format_usize;
use crate::text::pad;
use crate::text::pad::{pad_left, pad_right, repeat};
use crate::text::split;
use crate::text::split::join;
use vstd::prelude::*;
use vstd::string::*;

verus! {

broadcast use chars::lemma_texts_push, chars::lemma_texts_empty;

/// What can go wrong with heat.
#[derive(Debug, Clone, PartialEq, Eq)]
pub enum ThermalError {
    Database(DbError),
    /// There are no scores to merge.
    EmptyScores,
    /// A temperature is not above zero.
    InvalidTemperature(String),
    /// The terminal failed.
    Io(String),
}

/// What an error says.
pub open spec fn thermal_error_text(e: ThermalError) -> Seq<char> {
    match e {
        ThermalError::Database(x) => "database error: "@ + db::db_error_text(x),
        ThermalError::EmptyScores => "empty score set for merge"@,
        ThermalError::InvalidTemperature(t) => "invalid temperature "@ + t@
            + ": must be positive"@,
        ThermalError::Io(m) => "terminal I/O error: "@ + m@,
    }
}

impl ThermalError {
    /// What the error says.
    pub fn to_string(&self) -> (r: String)
        ensures
            r@ == thermal_error_text(*self),
    {
        match self {
            ThermalError::Database(x) => concat2("database error: ", x.to_string().as_str()),
            ThermalError::EmptyScores => own("empty score set for merge"),
            ThermalError::InvalidTemperature(t) => concat3(
                "invalid temperature ",
                t.as_str(),
                ": must be positive",
            ),
            ThermalError::Io(m) => concat2("terminal I/O error: ", m.as_str()),
        }
    }
}

/// The phases that agents go through in one iteration.
#[derive(Debug, Clone, Copy, PartialEq, Eq, Hash, Structural)]
pub enum ExecutionPhase {
    /// Cool files first, so that the ground is firm.
    Scaffolding,
    /// Hot files, where most of the work remains.
    Resolution,
    /// A sweep over what is left.
    Annealing,
}

/// The name of a phase.
pub open spec fn phase_name(p: ExecutionPhase) -> Seq<char> {
    match p {
        ExecutionPhase::Scaffolding => "Scaffolding"@,
        ExecutionPhase::Resolution => "Resolution"@,
        ExecutionPhase::Annealing => "Annealing"@,
    }
}

impl ExecutionPhase {
    /// The name of the phase.
    pub fn as_str(self) -> (r: &'static str)
        ensures
            r@ == phase_name(self),
    {
        match self {
            ExecutionPhase::Scaffolding => "Scaffolding",
            ExecutionPhase::Resolution => "Resolution",
            ExecutionPhase::Annealing => "Annealing",
        }
    }
}

/// The phase at the given progress: scaffolding below three tenths, resolution below seven
/// tenths, annealing from there on. Without an expected number of iterations it is
/// resolution.
pub open spec fn phase_at(current: int, expected: int) -> ExecutionPhase {
    if expected <= 0 {
        ExecutionPhase::Resolution
    } else if 10 * current < 3 * expected {
        ExecutionPhase::Scaffolding
    } else if 10 * current < 7 * expected {
        ExecutionPhase::Resolution
    } else {
        ExecutionPhase::Annealing
    }
}

/// The phase at the given progress.
pub fn phase_from_progress(current_iteration: i64, expected_iterations: i64) -> (r: ExecutionPhase)
    ensures
        r == phase_at(current_iteration as int, expected_iterations as int),
{
    if expected_iterations <= 0 {
        return ExecutionPhase::Resolution;
    }
    let current: i128 = 10 * (current_iteration as i128);
    let expected: i128 = expected_iterations as i128;
    if current < 3 * expected {
        ExecutionPhase::Scaffolding
    } else if current < 7 * expected {
        ExecutionPhase::Resolution
    } else {
        ExecutionPhase::Annealing
    }
}

/// How many agents work on a file.
pub open spec fn agents_at(agents: Seq<AgentLogEntry>, file: Seq<char>) -> nat
    decreases agents.len(),
{
    if agents.len() == 0 {
        0
    } else {
        agents_at(agents.drop_last(), file) + (if agents.last().file_path@ == file {
            1nat
        } else {
            0nat
        })
    }
}

/// Whether some lock names the file.
pub open spec fn lock_on(locks: Seq<CoolLock>, file: Seq<char>) -> bool {
    exists|i: int| 0 <= i < locks.len() && (#[trigger] locks[i]).file_path@ == file
}

/// Whether the file at `i` can be a target: no lock names it, it is not locked itself, and
/// fewer agents than allowed work on it.
pub open spec fn eligible(
    aggregates: Seq<ThermalAggregate>,
    locks: Seq<CoolLock>,
    agents: Seq<AgentLogEntry>,
    max_density: i32,
    i: int,
) -> bool {
    let a = aggregates[i];
    !lock_on(locks, a.file_path@) && !a.is_locked && agents_at(agents, a.file_path@)
        < max_density
}

/// Whether the file `a` is a better target than `b` in the given phase. A score that is no number
/// is neither lower nor higher than another.
pub open spec fn better(
    agents: Seq<AgentLogEntry>,
    phase: ExecutionPhase,
    a: ThermalAggregate,
    b: ThermalAggregate,
) -> bool {
    let x = agents_at(agents, a.file_path@);
    let y = agents_at(agents, b.file_path@);
    let cooler = score::lower(a.composite_score.rank as int, b.composite_score.rank as int);
    let hotter = score::lower(b.composite_score.rank as int, a.composite_score.rank as int);
    match phase {
        ExecutionPhase::Scaffolding => x < y || (x == y && cooler),
        ExecutionPhase::Resolution => hotter,
        ExecutionPhase::Annealing => x < y || (x == y && hotter),
    }
}

/// Whether a file takes the place of the one that was chosen among those before it: if it is
/// better; in resolution, if that one is not better.
pub open spec fn replaces(
    agents: Seq<AgentLogEntry>,
    phase: ExecutionPhase,
    a: ThermalAggregate,
    chosen: ThermalAggregate,
) -> bool {
    if phase == ExecutionPhase::Resolution {
        !better(agents, phase, chosen, a)
    } else {
        better(agents, phase, a, chosen)
    }
}

/// The position of the next file to work on: each file that can be a target is held against the
/// one that was chosen among those before it.
pub open spec fn target(
    aggregates: Seq<ThermalAggregate>,
    locks: Seq<CoolLock>,
    agents: Seq<AgentLogEntry>,
    phase: ExecutionPhase,
    max_density: i32,
) -> Option<int>
    decreases aggregates.len(),
{
    if aggregates.len() == 0 {
        None
    } else {
        let last = aggregates.len() - 1;
        let before = target(aggregates.drop_last(), locks, agents, phase, max_density);
        if !eligible(aggregates, locks, agents, max_density, last) {
            before
        } else {
            match before {
                Some(k) if !replaces(agents, phase, aggregates[last], aggregates[k]) => Some(k),
                _ => Some(last),
            }
        }
    }
}

/// Whether the file at `k` is the best target: it can be one, and no other file that can is
/// better. Among equally good files the first is taken, in resolution the last.
pub open spec fn is_target(
    aggregates: Seq<ThermalAggregate>,
    locks: Seq<CoolLock>,
    agents: Seq<AgentLogEntry>,
    phase: ExecutionPhase,
    max_density: i32,
    k: int,
) -> bool {
    &&& 0 <= k < aggregates.len()
    &&& eligible(aggregates, locks, agents, max_density, k)
    &&& forall|j: int|
        0 <= j < aggregates.len() && j != k && eligible(aggregates, locks, agents, max_density, j)
            ==> {
            &&& !better(agents, phase, #[trigger] aggregates[j], aggregates[k])
            &&& (phase == ExecutionPhase::Resolution && j > k) || (phase
                != ExecutionPhase::Resolution && j < k) ==> better(
                agents,
                phase,
                aggregates[k],
                aggregates[j],
            )
        }
}

/// How many agents work on a file.
pub fn count_agents(agents: &[AgentLogEntry], file: &str) -> (r: usize)
    ensures
        r == agents_at(agents@, file@),
{
    let mut n: usize = 0;
    let mut i: usize = 0;
    proof {
        assert(agents@.take(0) =~= Seq::<AgentLogEntry>::empty());
    }
    while i < agents.len()
        invariant
            i <= agents@.len(),
            n <= i,
            n == agents_at(agents@.take(i as int), file@),
        decreases agents@.len() - i,
    {
        proof {
            assert(agents@.take(i + 1).drop_last() =~= agents@.take(i as int));
        }
        if same(agents[i].file_path.as_str(), file) {
            n = n + 1;
        }
        i = i + 1;
    }
    proof {
        assert(agents@.take(agents@.len() as int) =~= agents@);
    }
    n
}

fn has_lock(locks: &[CoolLock], file: &str) -> (r: bool)
    ensures
        r == lock_on(locks@, file@),
{
    let mut i: usize = 0;
    while i < locks.len()
        invariant
            i <= locks@.len(),
            forall|j: int| 0 <= j < i ==> (#[trigger] locks@[j]).file_path@ != file@,
        decreases locks@.len() - i,
    {
        if same(locks[i].file_path.as_str(), file) {
            return true;
        }
        i = i + 1;
    }
    false
}

fn is_better(
    agents: &[AgentLogEntry],
    phase: ExecutionPhase,
    a: &ThermalAggregate,
    b: &ThermalAggregate,
) -> (r: bool)
    ensures
        r == better(agents@, phase, *a, *b),
{
    let x = count_agents(agents, a.file_path.as_str());
    let y = count_agents(agents, b.file_path.as_str());
    match phase {
        ExecutionPhase::Scaffolding => x < y || (x == y && b.composite_score.above(
            &a.composite_score,
        )),
        ExecutionPhase::Resolution => a.composite_score.above(&b.composite_score),
        ExecutionPhase::Annealing => x < y || (x == y && a.composite_score.above(
            &b.composite_score,
        )),
    }
}

/// The index of the next file to work on.
pub fn target_index(
    aggregates: &[ThermalAggregate],
    locks: &[CoolLock],
    agents: &[AgentLogEntry],
    phase: ExecutionPhase,
    max_density: i32,
) -> (r: Option<usize>)
    ensures
        match r {
            Some(k) => k < aggregates@.len() && target(
                aggregates@,
                locks@,
                agents@,
                phase,
                max_density,
            ) == Some(k as int),
            None => target(aggregates@, locks@, agents@, phase, max_density) is None,
        },
{
    let ghost all = aggregates@;
    let mut best: Option<usize> = None;
    let mut i: usize = 0;
    proof {
        assert(all.take(0) =~= Seq::<ThermalAggregate>::empty());
    }
    while i < aggregates.len()
        invariant
            all == aggregates@,
            i <= aggregates@.len(),
            match best {
                Some(k) => k < i && target(
                    all.take(i as int),
                    locks@,
                    agents@,
                    phase,
                    max_density,
                ) == Some(k as int),
                None => target(all.take(i as int), locks@, agents@, phase, max_density) is None,
            },
        decreases aggregates@.len() - i,
    {
        let a = &aggregates[i];
        proof {
            assert(all.take(i + 1).drop_last() =~= all.take(i as int));
            assert(all.take(i + 1)[i as int] == *a);
        }
        let crowd = count_agents(agents, a.file_path.as_str());
        if !has_lock(locks, a.file_path.as_str()) && !a.is_locked && max_density > 0 && crowd
            < max_density as usize {
            match best {
                Some(k) => {
                    let take = if phase == ExecutionPhase::Resolution {
                        !is_better(agents, phase, &aggregates[k], a)
                    } else {
                        is_better(agents, phase, a, &aggregates[k])
                    };
                    if take {
                        best = Some(i);
                    }
                },
                None => {
                    best = Some(i);
                },
            }
        }
        i = i + 1;
    }
    proof {
        assert(all.take(all.len() as int) =~= all);
    }
    best
}

/// The next file to work on: in scaffolding the coolest with the fewest agents, in
/// resolution the hottest, in annealing the one with the fewest agents and then the
/// hottest. Locked files and files with enough agents are left out.
pub fn next_target(
    aggregates: &[ThermalAggregate],
    locks: &[CoolLock],
    active_agents: &[AgentLogEntry],
    phase: ExecutionPhase,
    max_density: i32,
) -> (r: Option<String>)
    ensures
        match target(aggregates@, locks@, active_agents@, phase, max_density) {
            Some(k) => r matches Some(file) && file@ == aggregates@[k].file_path@,
            None => r is None,
        },
{
    match target_index(aggregates, locks, active_agents, phase, max_density) {
        Some(k) => Some(own(aggregates[k].file_path.as_str())),
        None => None,
    }
}

/// A target is one of the files and can be one.
pub proof fn law_target_is_eligible(
    aggregates: Seq<ThermalAggregate>,
    locks: Seq<CoolLock>,
    agents: Seq<AgentLogEntry>,
    phase: ExecutionPhase,
    max_density: i32,
)
    ensures
        match target(aggregates, locks, agents, phase, max_density) {
            Some(k) => 0 <= k < aggregates.len() && eligible(
                aggregates,
                locks,
                agents,
                max_density,
                k,
            ),
            None => forall|j: int|
                0 <= j < aggregates.len() ==> !#[trigger] eligible(
                    aggregates,
                    locks,
                    agents,
                    max_density,
                    j,
                ),
        },
    decreases aggregates.len(),
{
    if aggregates.len() > 0 {
        let front = aggregates.drop_last();
        law_target_is_eligible(front, locks, agents, phase, max_density);
        assert forall|j: int| 0 <= j < front.len() implies #[trigger] eligible(
            aggregates,
            locks,
            agents,
            max_density,
            j,
        ) == eligible(front, locks, agents, max_density, j) by {}
    }
}

/// Where all scores are numbers, the target is the best one.
pub proof fn law_target_is_best(
    aggregates: Seq<ThermalAggregate>,
    locks: Seq<CoolLock>,
    agents: Seq<AgentLogEntry>,
    phase: ExecutionPhase,
    max_density: i32,
)
    requires
        forall|i: int|
            0 <= i < aggregates.len() ==> score::is_number(
                (#[trigger] aggregates[i]).composite_score.rank as int,
            ),
    ensures
        target(aggregates, locks, agents, phase, max_density) matches Some(k) ==> is_target(
            aggregates,
            locks,
            agents,
            phase,
            max_density,
            k,
        ),
    decreases aggregates.len(),
{
    law_target_is_eligible(aggregates, locks, agents, phase, max_density);
    if aggregates.len() > 0 {
        let front = aggregates.drop_last();
        let last = aggregates.len() - 1;
        law_target_is_eligible(front, locks, agents, phase, max_density);
        law_target_is_best(front, locks, agents, phase, max_density);
        let before = target(front, locks, agents, phase, max_density);
        match target(aggregates, locks, agents, phase, max_density) {
            Some(k) => {
                assert forall|j: int|
                    0 <= j < aggregates.len() && j != k && eligible(
                        aggregates,
                        locks,
                        agents,
                        max_density,
                        j,
                    ) implies {
                    &&& !better(agents, phase, #[trigger] aggregates[j], aggregates[k])
                    &&& (phase == ExecutionPhase::Resolution && j > k) || (phase
                        != ExecutionPhase::Resolution && j < k) ==> better(
                        agents,
                        phase,
                        aggregates[k],
                        aggregates[j],
                    )
                } by {
                    assert(score::is_number(aggregates[j].composite_score.rank as int));
                    assert(score::is_number(aggregates[k].composite_score.rank as int));
                    if j < last {
                        assert(front[j] == aggregates[j]);
                        assert(eligible(front, locks, agents, max_density, j));
                        let b = before->0;
                        assert(front[b] == aggregates[b]);
                        assert(score::is_number(aggregates[b].composite_score.rank as int));
                        if j != b {
                            assert(!better(agents, phase, front[j], front[b]));
                        }
                    }
                }
            },
            None => {},
        }
    }
}

/// There is at most one best target.
pub proof fn law_target_is_unique(
    aggregates: Seq<ThermalAggregate>,
    locks: Seq<CoolLock>,
    agents: Seq<AgentLogEntry>,
    phase: ExecutionPhase,
    max_density: i32,
    j: int,
    k: int,
)
    requires
        is_target(aggregates, locks, agents, phase, max_density, j),
        is_target(aggregates, locks, agents, phase, max_density, k),
    ensures
        j == k,
{
    if j != k {
        assert(!better(agents, phase, aggregates[j], aggregates[k]));
        assert(!better(agents, phase, aggregates[k], aggregates[j]));
    }
}

/// The colour of a score.
#[derive(Debug, Clone, Copy, PartialEq, Eq, Structural)]
pub enum HeatColor {
    Blue,
    Cyan,
    Yellow,
    Red,
}

/// The colour of a rank.
pub open spec fn color_of(rank: int) -> HeatColor {
    if score::is_number(rank) && rank < score::QUARTER {
        HeatColor::Blue
    } else if score::is_number(rank) && rank < score::HALF {
        HeatColor::Cyan
    } else if score::is_number(rank) && rank < score::THREE_QUARTERS {
        HeatColor::Yellow
    } else {
        HeatColor::Red
    }
}

/// The colour of a score: blue below a quarter, cyan below a half, yellow below three
/// quarters, red from there on. What is no number is red too.
pub fn score_to_color(s: Score) -> (r: HeatColor)
    ensures
        r == (if !score::is_number(s.rank as int) {
            HeatColor::Red
        } else if s.rank < score::QUARTER {
            HeatColor::Blue
        } else if s.rank < score::HALF {
            HeatColor::Cyan
        } else if s.rank < score::THREE_QUARTERS {
            HeatColor::Yellow
        } else {
            HeatColor::Red
        }),
        r == color_of(s.rank as int),
{
    if !s.is_number() {
        HeatColor::Red
    } else if s.rank < score::QUARTER {
        HeatColor::Blue
    } else if s.rank < score::HALF {
        HeatColor::Cyan
    } else if s.rank < score::THREE_QUARTERS {
        HeatColor::Yellow
    } else {
        HeatColor::Red
    }
}

/// A bar of ten places of which the given number is filled.
pub open spec fn bar_text(filled: nat) -> Seq<char> {
    "["@ + pad::repeated('#', filled) + pad::repeated(' ', (10 - filled) as nat) + "]"@
}

/// A bar of ten places of which the given number is filled.
pub fn score_bar(filled: usize) -> (r: String)
    requires
        filled <= 10,
    ensures
        r@ == bar_text(filled as nat),
{
    let mut out = own("[");
    out.append(repeat('#', filled).as_str());
    out.append(repeat(' ', 10 - filled).as_str());
    out.append("]");
    out
}

/// How many bytes of a path are kept when it is shortened to `max_len` bytes.
pub open spec fn kept_bytes(max_len: nat) -> nat {
    if max_len >= 3 {
        (max_len - 3) as nat
    } else {
        0
    }
}

/// Whether a path can be shortened: what is kept begins between two characters.
pub open spec fn can_shorten(path: Seq<char>, max_len: nat) -> bool {
    bytes::byte_len(path) > max_len ==> bytes::is_boundary(
        path,
        bytes::byte_len(path) - kept_bytes(max_len),
    )
}

/// The path shortened to `max_len` bytes: the path itself if it is not longer, else an
/// ellipsis and the last bytes of the path; where there is no room for three dots, as many
/// as fit.
pub open spec fn shortened(path: Seq<char>, max_len: nat) -> Seq<char> {
    if bytes::byte_len(path) <= max_len {
        path
    } else if max_len < 3 {
        "..."@.take(max_len as int)
    } else {
        "..."@ + bytes::text_from(path, bytes::byte_len(path) - kept_bytes(max_len))
    }
}

/// Shortens a path to at most `max_len` bytes, with an ellipsis in front.
pub fn truncate_path(path: &str, max_len: usize) -> (r: String)
    requires
        can_shorten(path@, max_len as nat),
    ensures
        r@ == shortened(path@, max_len as nat),
        bytes::byte_len(r@) <= max_len,
{
    let n: usize = bytes::count_bytes(path);
    if n <= max_len {
        return own(path);
    }
    if max_len < 3 {
        let dots = repeat('.', max_len);
        proof {
            reveal_strlit("...");
            assert(dots@ =~= "..."@.take(max_len as int));
            vstd::utf8::is_ascii_chars_encode_utf8(dots@);
        }
        return dots;
    }
    let keep: usize = max_len - 3;
    let tail = bytes::tail_from(path, n - keep);
    let r = concat2("...", tail);
    proof {
        reveal_strlit("...");
        vstd::utf8::is_ascii_chars_encode_utf8("..."@);
        bytes::lemma_byte_len_add("..."@, tail@);
    }
    r
}

/// What the heatmap shows of the score of a file.
#[derive(Debug, Clone)]
pub struct ScoreFigure {
    /// How many of the ten places of the bar are filled.
    pub filled: usize,
    /// The score with two decimals.
    pub text: String,
}

/// The longest path in bytes.
pub open spec fn longest_path(aggregates: Seq<ThermalAggregate>) -> nat
    decreases aggregates.len(),
{
    if aggregates.len() == 0 {
        0
    } else {
        let front = longest_path(aggregates.drop_last());
        let n = bytes::byte_len(aggregates.last().file_path@);
        if n > front {
            n
        } else {
            front
        }
    }
}

/// The width of the column of paths: that of the longest path, but from 12 to 48.
pub open spec fn path_width(aggregates: Seq<ThermalAggregate>) -> nat {
    let n = longest_path(aggregates);
    if n < 12 {
        12
    } else if n > 48 {
        48
    } else {
        n
    }
}

/// The heading of the heatmap.
pub open spec fn heading(width: nat) -> Seq<char> {
    pad::padded_right("FILE"@, width) + "  "@ + pad::padded_left("BAR"@, 12) + "  "@
        + pad::padded_left("SCORE"@, 5) + "  "@ + pad::padded_left("LOCK"@, 8) + "  "@
        + pad::padded_left("AGENTS"@, 9)
}

/// The line of a file.
pub open spec fn row_text(
    width: nat,
    a: ThermalAggregate,
    agents: Seq<AgentLogEntry>,
    figure: ScoreFigure,
) -> Seq<char> {
    pad::padded_right(shortened(a.file_path@, width), width) + "  "@ + pad::padded_left(
        bar_text(figure.filled as nat),
        12,
    ) + "  "@ + pad::padded_left(figure.text@, 5) + "  "@ + pad::padded_left(
        if a.is_locked {
            "LOCKED"@
        } else {
            "UNLOCKED"@
        },
        8,
    ) + "  agents: "@ + number::decimal(agents_at(agents, a.file_path@))
}

/// The lines of the heatmap: a heading, a rule, and a line for each file.
pub open spec fn heatmap_lines(
    aggregates: Seq<ThermalAggregate>,
    agents: Seq<AgentLogEntry>,
    figures: Seq<ScoreFigure>,
) -> Seq<Seq<char>> {
    let width = path_width(aggregates);
    seq![heading(width), pad::repeated('-', width + 42)] + Seq::new(
        aggregates.len(),
        |i: int| row_text(width, aggregates[i], agents, figures[i]),
    )
}

fn widest_path(aggregates: &[ThermalAggregate]) -> (r: usize)
    ensures
        r == longest_path(aggregates@),
{
    let mut n: usize = 0;
    let mut i: usize = 0;
    proof {
        assert(aggregates@.take(0) =~= Seq::<ThermalAggregate>::empty());
    }
    while i < aggregates.len()
        invariant
            i <= aggregates@.len(),
            n == longest_path(aggregates@.take(i as int)),
        decreases aggregates@.len() - i,
    {
        proof {
            assert(aggregates@.take(i + 1).drop_last() =~= aggregates@.take(i as int));
        }
        let k: usize = bytes::count_bytes(aggregates[i].file_path.as_str());
        if k > n {
            n = k;
        }
        i = i + 1;
    }
    proof {
        assert(aggregates@.take(aggregates@.len() as int) =~= aggregates@);
    }
    n
}

fn render_heading(width: usize) -> (r: String)
    ensures
        r@ == heading(width as nat),
{
    let mut out = pad_right("FILE", width);
    out.append("  ");
    out.append(pad_left("BAR", 12).as_str());
    out.append("  ");
    out.append(pad_left("SCORE", 5).as_str());
    out.append("  ");
    out.append(pad_left("LOCK", 8).as_str());
    out.append("  ");
    out.append(pad_left("AGENTS", 9).as_str());
    out
}

fn render_row(
    width: usize,
    a: &ThermalAggregate,
    agents: &[AgentLogEntry],
    figure: &ScoreFigure,
) -> (r: String)
    requires
        figure.filled <= 10,
        can_shorten(a.file_path@, width as nat),
    ensures
        r@ == row_text(width as nat, *a, agents@, *figure),
{
    let path = truncate_path(a.file_path.as_str(), width);
    let mut out = pad_right(path.as_str(), width);
    out.append("  ");
    out.append(pad_left(score_bar(figure.filled).as_str(), 12).as_str());
    out.append("  ");
    out.append(pad_left(figure.text.as_str(), 5).as_str());
    out.append("  ");
    let lock = if a.is_locked {
        "LOCKED"
    } else {
        "UNLOCKED"
    };
    out.append(pad_left(lock, 8).as_str());
    out.append("  agents: ");
    out.append(format_usize(count_agents(agents, a.file_path.as_str())).as_str());
    out
}

/// The heatmap as plain text.
pub fn render_heatmap_to_string(
    aggregates: &[ThermalAggregate],
    active_agents: &[AgentLogEntry],
    figures: &[ScoreFigure],
) -> (r: String)
    requires
        aggregates@.len() == figures@.len(),
        forall|i: int| 0 <= i < figures@.len() ==> (#[trigger] figures@[i]).filled <= 10,
        forall|i: int|
            0 <= i < aggregates@.len() ==> can_shorten(
                (#[trigger] aggregates@[i]).file_path@,
                path_width(aggregates@),
            ),
    ensures
        r@ == (if aggregates@.len() == 0 {
            "(no thermal data)"@
        } else {
            split::joined(heatmap_lines(aggregates@, active_agents@, figures@), "\n"@)
        }),
{
    if aggregates.len() == 0 {
        return own("(no thermal data)");
    }
    let longest = widest_path(aggregates);
    let width: usize = if longest < 12 {
        12
    } else if longest > 48 {
        48
    } else {
        longest
    };
    let ghost all = heatmap_lines(aggregates@, active_agents@, figures@);
    let mut out: Vec<String> = Vec::new();
    out.push(render_heading(width));
    out.push(repeat('-', width + 42));
    let mut i: usize = 0;
    proof {
        assert(chars::texts(out@) =~= all.take(2));
    }
    while i < aggregates.len()
        invariant
            i <= aggregates@.len(),
            width == path_width(aggregates@),
            all == heatmap_lines(aggregates@, active_agents@, figures@),
            aggregates@.len() == figures@.len(),
            forall|i: int| 0 <= i < figures@.len() ==> (#[trigger] figures@[i]).filled <= 10,
            forall|i: int|
                0 <= i < aggregates@.len() ==> can_shorten(
                    (#[trigger] aggregates@[i]).file_path@,
                    path_width(aggregates@),
                ),
            chars::texts(out@) == all.take(i + 2),
        decreases aggregates@.len() - i,
    {
        out.push(render_row(width, &aggregates[i], active_agents, &figures[i]));
        proof {
            assert(all.take(i + 3) =~= all.take(i + 2).push(all[i + 2]));
        }
        i = i + 1;
    }
    proof {
        assert(all.take(all.len() as int) =~= all);
    }
    join(out.as_slice(), "\n")
}

/// The phase is scaffolding below thirty parts in a hundred of the expected iterations,
/// resolution below seventy, and annealing from there on; where nothing is expected it is
/// resolution.
pub proof fn law_phases_follow_progress(current: int, expected: int)
    ensures
        expected > 0 ==> {
            &&& phase_at(current, expected) is Scaffolding <==> 100 * current < 30 * expected
            &&& phase_at(current, expected) is Resolution <==> 30 * expected <= 100 * current < 70
                * expected
            &&& phase_at(current, expected) is Annealing <==> 70 * expected <= 100 * current
        },
        expected <= 0 ==> phase_at(current, expected) is Resolution,
{
}

/// The agents at a file are those whose log entries name it.
pub proof fn law_agents_at_a_file_are_counted(agents: Seq<AgentLogEntry>, file: Seq<char>)
    ensures
        agents_at(agents, file) == agents.filter(|a: AgentLogEntry| a.file_path@ == file).len(),
    decreases agents.len(),
{
    reveal(Seq::filter);
    if agents.len() > 0 {
        law_agents_at_a_file_are_counted(agents.drop_last(), file);
    }
}

/// While scaffolding and annealing files with fewer agents are preferred; among those with as
/// many, cooler ones while scaffolding and hotter ones while annealing. While resolving only
/// the heat counts: the hotter file is preferred.
pub proof fn law_preferred_targets(
    agents: Seq<AgentLogEntry>,
    a: ThermalAggregate,
    b: ThermalAggregate,
)
    requires
        score::is_number(a.composite_score.rank as int),
        score::is_number(b.composite_score.rank as int),
    ensures
        ({
            let x = agents_at(agents, a.file_path@);
            let y = agents_at(agents, b.file_path@);
            let p = a.composite_score.rank;
            let q = b.composite_score.rank;
            &&& better(agents, ExecutionPhase::Resolution, a, b) <==> p > q
            &&& x < y ==> better(agents, ExecutionPhase::Scaffolding, a, b) && better(
                agents,
                ExecutionPhase::Annealing,
                a,
                b,
            )
            &&& x > y ==> !better(agents, ExecutionPhase::Scaffolding, a, b) && !better(
                agents,
                ExecutionPhase::Annealing,
                a,
                b,
            )
            &&& x == y ==> (better(agents, ExecutionPhase::Scaffolding, a, b) <==> p < q) && (
            better(agents, ExecutionPhase::Annealing, a, b) <==> p > q)
        }),
{
}

/// A locked file, or one with as many agents as it can take, is never a target; any other can
/// be.
pub proof fn law_eligible_targets(
    aggregates: Seq<ThermalAggregate>,
    locks: Seq<CoolLock>,
    agents: Seq<AgentLogEntry>,
    max_density: i32,
    i: int,
)
    requires
        0 <= i < aggregates.len(),
    ensures
        eligible(aggregates, locks, agents, max_density, i) <==> !aggregates[i].is_locked && (
        forall|j: int|
            0 <= j < locks.len() ==> (#[trigger] locks[j]).file_path@
                != aggregates[i].file_path@) && agents_at(agents, aggregates[i].file_path@)
            < max_density,
{
}

/// No path is longer than the longest one, and one is as long.
pub proof fn law_longest_path(aggregates: Seq<ThermalAggregate>)
    ensures
        forall|i: int|
            0 <= i < aggregates.len() ==> bytes::byte_len((#[trigger] aggregates[i]).file_path@)
                <= longest_path(aggregates),
        aggregates.len() > 0 ==> exists|i: int|
            0 <= i < aggregates.len() && bytes::byte_len((#[trigger] aggregates[i]).file_path@)
                == longest_path(aggregates),
        aggregates.len() == 0 ==> longest_path(aggregates) == 0,
    decreases aggregates.len(),
{
    if aggregates.len() > 0 {
        let front = aggregates.drop_last();
        let n = aggregates.len() - 1;
        law_longest_path(front);
        assert forall|i: int| 0 <= i < aggregates.len() implies bytes::byte_len(
            (#[trigger] aggregates[i]).file_path@,
        ) <= longest_path(aggregates) by {
            if i < n {
                assert(bytes::byte_len(front[i].file_path@) <= longest_path(front));
            }
        }
        if bytes::byte_len(aggregates[n].file_path@) == longest_path(aggregates) {
        } else {
            assert(front.len() > 0);
            let i = choose|i: int|
                0 <= i < front.len() && bytes::byte_len((#[trigger] front[i]).file_path@)
                    == longest_path(front);
            assert(bytes::byte_len(aggregates[i].file_path@) == longest_path(aggregates));
        }
    }
}

/// A heat map has a heading, a rule and one row for each file, in their order; the row of a file
/// depends on no other file but by the width.
pub proof fn law_heatmap_has_a_row_for_each_file(
    aggregates: Seq<ThermalAggregate>,
    agents: Seq<AgentLogEntry>,
    figures: Seq<ScoreFigure>,
    i: int,
)
    requires
        0 <= i < aggregates.len(),
    ensures
        heatmap_lines(aggregates, agents, figures).len() == aggregates.len() + 2,
        heatmap_lines(aggregates, agents, figures)[i + 2] == row_text(
            path_width(aggregates),
            aggregates[i],
            agents,
            figures[i],
        ),
        12 <= path_width(aggregates) <= 48,
        12 <= bytes::byte_len(aggregates[i].file_path@) <= 48 ==> path_width(aggregates)
            >= bytes::byte_len(aggregates[i].file_path@),
{
    law_longest_path(aggregates);
}

/// A bar is ten places wide, of which the given number is filled.
pub proof fn law_bars_are_ten_wide(filled: nat)
    requires
        filled <= 10,
    ensures
        bar_text(filled).len() == 12,
        forall|i: int|
            1 <= i <= 10 ==> #[trigger] bar_text(filled)[i] == (if i <= filled {
                '#'
            } else {
                ' '
            }),
{
    reveal_strlit("[");
    reveal_strlit("]");
}

/// How hot a colour is.
pub open spec fn heat_of(c: HeatColor) -> int {
    match c {
        HeatColor::Blue => 0,
        HeatColor::Cyan => 1,
        HeatColor::Yellow => 2,
        HeatColor::Red => 3,
    }
}

/// A higher score never has a cooler colour, and the colour changes at each quarter.
pub proof fn law_colors_follow_scores(a: int, b: int)
    requires
        score::is_number(a),
        score::is_number(b),
        a <= b,
    ensures
        heat_of(color_of(a)) <= heat_of(color_of(b)),
        color_of(a) is Blue <==> a < score::QUARTER,
        color_of(score::QUARTER as int) is Cyan,
        color_of(score::HALF as int) is Yellow,
        color_of(score::THREE_QUARTERS as int) is Red,
        color_of(score::QUARTER - 1) is Blue,
        color_of(score::HALF - 1) is Cyan,
        color_of(score::THREE_QUARTERS - 1) is Yellow,
{
}

} // verus!
