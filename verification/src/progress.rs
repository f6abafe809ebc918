//! How far a session has come: the artifacts that are being made, the inputs
//! that they are made from, and the percentage that is displayed.

use vstd::prelude::*;

verus! {

/// A ratio is counted in billionths: this many are a whole.
pub const WHOLE: u64 = 1_000_000_000;

/// A percentage is counted in billionths of a percent: a hundred percent.
pub const FULL_PERCENT: u64 = 100_000_000_000;

/// The most that is displayed before all inputs are known.
pub const QUEUEING_CAP: u64 = 99_000_000_000;

/// Whether inputs are still being found.
#[derive(Debug, Clone, Copy, PartialEq, Eq, Structural)]
pub enum ProgressPhase {
    /// Inputs are still being found, and the display counts those that are done.
    Queueing,
    /// All inputs are known, and the display weighs every artifact.
    Exact,
}

impl Default for ProgressPhase {
    fn default() -> (r: Self)
        ensures
            r == ProgressPhase::Queueing,
    {
        ProgressPhase::Queueing
    }
}

/// How far a session has come.
#[derive(Debug)]
pub struct OverallProgress {
    /// How far each artifact has come, in billionths.
    pub artifact_progress: Vec<u64>,
    /// Whether each artifact is done, or never will be.
    pub artifact_terminal: Vec<bool>,
    /// The input that each artifact is made from.
    pub artifact_input: Vec<usize>,
    /// How many artifacts are made from each input.
    pub input_artifact_total: Vec<usize>,
    /// How many of them are done.
    pub input_terminal_artifacts: Vec<usize>,
    /// What is displayed, in billionths of a percent.
    pub percent: u64,
    pub completed_count: usize,
    pub target_total: usize,
    pub enumerated_input_count: usize,
    pub completed_input_count: usize,
    pub phase: ProgressPhase,
    pub scan_complete: bool,
}

/// What an `OverallProgress` holds.
#[verifier::ext_equal]
pub struct ProgressView {
    pub artifact_progress: Seq<u64>,
    pub artifact_terminal: Seq<bool>,
    pub artifact_input: Seq<usize>,
    pub input_artifact_total: Seq<usize>,
    pub input_terminal_artifacts: Seq<usize>,
    pub percent: u64,
    pub completed_count: usize,
    pub target_total: usize,
    pub enumerated_input_count: usize,
    pub completed_input_count: usize,
    pub phase: ProgressPhase,
    pub scan_complete: bool,
}

impl View for OverallProgress {
    type V = ProgressView;

    open spec fn view(&self) -> ProgressView {
        ProgressView {
            artifact_progress: self.artifact_progress@,
            artifact_terminal: self.artifact_terminal@,
            artifact_input: self.artifact_input@,
            input_artifact_total: self.input_artifact_total@,
            input_terminal_artifacts: self.input_terminal_artifacts@,
            percent: self.percent,
            completed_count: self.completed_count,
            target_total: self.target_total,
            enumerated_input_count: self.enumerated_input_count,
            completed_input_count: self.completed_input_count,
            phase: self.phase,
            scan_complete: self.scan_complete,
        }
    }
}

// Counting -------------------------------------------------------------------

/// How many places of a list satisfy a condition.
pub open spec fn count_where(n: nat, holds: spec_fn(int) -> bool) -> nat
    decreases n,
{
    if n == 0 {
        0
    } else {
        count_where((n - 1) as nat, holds) + if holds(n - 1) {
            1nat
        } else {
            0nat
        }
    }
}

/// How many artifacts are done.
pub open spec fn terminal_count(v: ProgressView) -> nat {
    count_where(v.artifact_terminal.len(), |i: int| v.artifact_terminal[i])
}

/// How many artifacts are made from an input.
pub open spec fn made_from(v: ProgressView, input: int) -> nat {
    count_where(v.artifact_input.len(), is_made_from(v, input))
}

pub open spec fn is_made_from(v: ProgressView, input: int) -> spec_fn(int) -> bool {
    |i: int| v.artifact_input[i] == input
}

/// How many artifacts of an input are done.
pub open spec fn done_from(v: ProgressView, input: int) -> nat {
    count_where(v.artifact_input.len(), is_done_from(v, input))
}

pub open spec fn is_done_from(v: ProgressView, input: int) -> spec_fn(int) -> bool {
    |i: int| v.artifact_input[i] == input && v.artifact_terminal[i]
}

/// All artifacts of an input are done.
pub open spec fn input_done(v: ProgressView, input: int) -> bool {
    v.input_terminal_artifacts[input] == v.input_artifact_total[input]
}

/// How many inputs have all their artifacts done.
pub open spec fn inputs_done(v: ProgressView) -> nat {
    count_where(v.input_artifact_total.len(), |j: int| input_done(v, j))
}

/// How many inputs have artifacts, and all of them done.
pub open spec fn inputs_made(v: ProgressView) -> nat {
    count_where(
        v.input_artifact_total.len(),
        |j: int| input_done(v, j) && v.input_artifact_total[j] > 0,
    )
}

/// The lists belong together, and the counts are those of the lists.
pub open spec fn consistent(v: ProgressView) -> bool {
    &&& v.artifact_progress.len() == v.target_total
    &&& v.artifact_terminal.len() == v.target_total
    &&& v.artifact_input.len() == v.target_total
    &&& v.input_terminal_artifacts.len() == v.input_artifact_total.len()
    &&& v.input_artifact_total.len() <= usize::MAX
    &&& forall|i: int|
        0 <= i < v.target_total ==> (#[trigger] v.artifact_input[i]) < v.input_artifact_total.len()
    &&& forall|i: int| 0 <= i < v.target_total ==> (#[trigger] v.artifact_progress[i]) <= WHOLE
    &&& forall|i: int|
        0 <= i < v.target_total && (#[trigger] v.artifact_terminal[i]) ==> v.artifact_progress[i]
            == WHOLE
    &&& v.completed_count == terminal_count(v)
    &&& forall|j: int|
        0 <= j < v.input_artifact_total.len() ==> (#[trigger] v.input_artifact_total[j])
            == made_from(v, j)
    &&& forall|j: int|
        0 <= j < v.input_artifact_total.len() ==> (#[trigger] v.input_terminal_artifacts[j])
            == done_from(v, j)
    &&& inputs_made(v) <= v.completed_input_count <= inputs_done(v)
    &&& v.percent <= FULL_PERCENT
}

// What is displayed ----------------------------------------------------------

/// The inputs that are done among those found so far, in billionths of a
/// percent; never more than the cap.
pub open spec fn coarse_percent(v: ProgressView) -> int {
    if v.enumerated_input_count == 0 {
        0
    } else {
        let share = v.completed_input_count * FULL_PERCENT / (v.enumerated_input_count as int);
        if share <= QUEUEING_CAP {
            share
        } else {
            QUEUEING_CAP as int
        }
    }
}

/// The sum of a list.
pub open spec fn sum(s: Seq<u64>) -> nat
    decreases s.len(),
{
    if s.len() == 0 {
        0
    } else {
        sum(s.drop_last()) + s.last() as nat
    }
}

/// The mean progress of the artifacts, in billionths of a percent.
pub open spec fn exact_percent(v: ProgressView) -> int {
    (sum(v.artifact_progress) * 100) as int / (if v.target_total == 0 {
        1int
    } else {
        v.target_total as int
    })
}

pub open spec fn min_int(a: int, b: int) -> int {
    if a <= b {
        a
    } else {
        b
    }
}

pub open spec fn max_int(a: int, b: int) -> int {
    if a >= b {
        a
    } else {
        b
    }
}

/// A session in which nothing is known yet.
pub open spec fn no_progress() -> ProgressView {
    ProgressView {
        artifact_progress: seq![],
        artifact_terminal: seq![],
        artifact_input: seq![],
        input_artifact_total: seq![],
        input_terminal_artifacts: seq![],
        percent: 0,
        completed_count: 0,
        target_total: 0,
        enumerated_input_count: 0,
        completed_input_count: 0,
        phase: ProgressPhase::Queueing,
        scan_complete: false,
    }
}

/// Inputs are being found again.
pub open spec fn queueing(v: ProgressView) -> ProgressView {
    ProgressView {
        phase: ProgressPhase::Queueing,
        scan_complete: false,
        percent: coarse_percent(v) as u64,
        ..v
    }
}

/// More inputs were found; the display follows while they are being found.
pub open spec fn enumerated(v: ProgressView, count: usize) -> ProgressView {
    let w = ProgressView {
        enumerated_input_count: min_int(
            v.enumerated_input_count + count,
            usize::MAX as int,
        ) as usize,
        ..v
    };
    if v.phase == ProgressPhase::Queueing {
        ProgressView { percent: coarse_percent(w) as u64, ..w }
    } else {
        w
    }
}

/// One more input, from which that many artifacts will be made.
pub open spec fn registered(v: ProgressView, count: usize) -> ProgressView {
    ProgressView {
        artifact_progress: v.artifact_progress + Seq::new(count as nat, |i: int| 0u64),
        artifact_terminal: v.artifact_terminal + Seq::new(count as nat, |i: int| false),
        artifact_input: v.artifact_input + Seq::new(
            count as nat,
            |i: int| v.input_artifact_total.len() as usize,
        ),
        input_artifact_total: v.input_artifact_total.push(count),
        input_terminal_artifacts: v.input_terminal_artifacts.push(0),
        target_total: (v.target_total + count) as usize,
        ..v
    }
}

/// An artifact has come to `ratio`, or is done; what was reached stays reached.
pub open spec fn advanced(v: ProgressView, index: int, ratio: u64, terminal: bool) -> ProgressView {
    let next = if terminal {
        WHOLE as int
    } else {
        min_int(ratio as int, WHOLE as int)
    };
    let input = v.artifact_input[index] as int;
    let w = ProgressView {
        artifact_progress: v.artifact_progress.update(
            index,
            max_int(v.artifact_progress[index] as int, next) as u64,
        ),
        ..v
    };
    if terminal && !v.artifact_terminal[index] {
        let u = ProgressView {
            artifact_terminal: v.artifact_terminal.update(index, true),
            completed_count: (v.completed_count + 1) as usize,
            input_terminal_artifacts: v.input_terminal_artifacts.update(
                input,
                (v.input_terminal_artifacts[input] + 1) as usize,
            ),
            ..w
        };
        if input_done(u, input) {
            ProgressView { completed_input_count: (v.completed_input_count + 1) as usize, ..u }
        } else {
            u
        }
    } else {
        w
    }
}

/// An artifact has come to `ratio`, or is done, and the display follows: while
/// inputs are being found it counts inputs only; after that it never falls.
pub open spec fn updated(v: ProgressView, index: usize, ratio: u64, terminal: bool) -> ProgressView {
    if index >= v.artifact_progress.len() {
        v
    } else {
        let w = advanced(v, index as int, ratio, terminal);
        ProgressView {
            percent: match v.phase {
                ProgressPhase::Queueing => coarse_percent(w) as u64,
                ProgressPhase::Exact => min_int(
                    max_int(v.percent as int, exact_percent(w)),
                    FULL_PERCENT as int,
                ) as u64,
            },
            ..w
        }
    }
}

/// All inputs are known: the display weighs the artifacts from here on.
pub open spec fn queueing_finished(v: ProgressView) -> ProgressView {
    ProgressView {
        phase: ProgressPhase::Exact,
        scan_complete: true,
        percent: min_int(exact_percent(v), FULL_PERCENT as int) as u64,
        ..v
    }
}

/// The session is over: everything is done.
pub open spec fn job_finished(v: ProgressView) -> ProgressView {
    ProgressView {
        artifact_progress: Seq::new(v.artifact_progress.len(), |i: int| WHOLE),
        artifact_terminal: Seq::new(v.artifact_terminal.len(), |i: int| true),
        completed_count: v.target_total,
        input_terminal_artifacts: v.input_artifact_total,
        completed_input_count: v.input_artifact_total.len() as usize,
        phase: ProgressPhase::Exact,
        scan_complete: true,
        percent: FULL_PERCENT,
        ..v
    }
}

// Facts about counting -------------------------------------------------------

proof fn lemma_count_bound(n: nat, f: spec_fn(int) -> bool)
    ensures
        count_where(n, f) <= n,
    decreases n,
{
    if n > 0 {
        lemma_count_bound((n - 1) as nat, f);
    }
}

proof fn lemma_count_same(n: nat, f: spec_fn(int) -> bool, g: spec_fn(int) -> bool)
    requires
        forall|i: int| 0 <= i < n ==> #[trigger] f(i) == g(i),
    ensures
        count_where(n, f) == count_where(n, g),
    decreases n,
{
    if n > 0 {
        assert(f(n - 1) == g(n - 1));
        lemma_count_same((n - 1) as nat, f, g);
    }
}

proof fn lemma_count_all(n: nat, f: spec_fn(int) -> bool)
    requires
        forall|i: int| 0 <= i < n ==> #[trigger] f(i),
    ensures
        count_where(n, f) == n,
    decreases n,
{
    if n > 0 {
        assert(f(n - 1));
        lemma_count_all((n - 1) as nat, f);
    }
}

/// Where the two conditions differ in one place only, the counts differ by one.
proof fn lemma_count_one_more(n: nat, f: spec_fn(int) -> bool, g: spec_fn(int) -> bool, k: int)
    requires
        0 <= k < n,
        !f(k),
        g(k),
        forall|i: int| 0 <= i < n && i != k ==> #[trigger] f(i) == g(i),
    ensures
        count_where(n, g) == count_where(n, f) + 1,
    decreases n,
{
    if k == n - 1 {
        lemma_count_same((n - 1) as nat, f, g);
    } else {
        assert(f(n - 1) == g(n - 1));
        lemma_count_one_more((n - 1) as nat, f, g, k);
    }
}

/// Places behind the first `n` that all satisfy the condition, or all do not.
proof fn lemma_count_extend(n: nat, m: nat, f: spec_fn(int) -> bool, holds: bool)
    requires
        n <= m,
        forall|i: int| n <= i < m ==> #[trigger] f(i) == holds,
    ensures
        count_where(m, f) == count_where(n, f) + if holds {
            m - n
        } else {
            0
        },
    decreases m,
{
    if n < m {
        assert(f(m - 1) == holds);
        lemma_count_extend(n, (m - 1) as nat, f, holds);
    }
}

proof fn lemma_sum_bound(s: Seq<u64>)
    requires
        forall|i: int| 0 <= i < s.len() ==> (#[trigger] s[i]) <= WHOLE,
    ensures
        sum(s) <= s.len() * WHOLE,
    decreases s.len(),
{
    if s.len() > 0 {
        lemma_sum_bound(s.drop_last());
        assert(s.last() <= WHOLE);
    }
}

proof fn lemma_sum_update(s: Seq<u64>, k: int, x: u64)
    requires
        0 <= k < s.len(),
    ensures
        sum(s.update(k, x)) == sum(s) - s[k] + x,
    decreases s.len(),
{
    let t = s.update(k, x);
    if k == s.len() - 1 {
        assert(t.drop_last() =~= s.drop_last());
    } else {
        assert(t.drop_last() =~= s.drop_last().update(k, x));
        lemma_sum_update(s.drop_last(), k, x);
    }
}

proof fn lemma_sum_push(s: Seq<u64>, x: u64)
    ensures
        sum(s.push(x)) == sum(s) + x,
{
    assert(s.push(x).drop_last() =~= s);
}

/// The mean of ratios is a percentage.
proof fn lemma_exact_bound(v: ProgressView)
    requires
        v.artifact_progress.len() == v.target_total,
        forall|i: int| 0 <= i < v.target_total ==> (#[trigger] v.artifact_progress[i]) <= WHOLE,
    ensures
        0 <= exact_percent(v) <= FULL_PERCENT,
{
    lemma_sum_bound(v.artifact_progress);
    let total = v.target_total as int;
    let s = sum(v.artifact_progress) as int;
    if total > 0 {
        assert(0 <= (s * 100) / total <= 100_000_000_000) by (nonlinear_arith)
            requires
                total > 0,
                0 <= s <= total * 1_000_000_000,
        ;
    }
}

proof fn lemma_coarse_bound(v: ProgressView)
    ensures
        0 <= coarse_percent(v) <= QUEUEING_CAP,
{
    let done = v.completed_input_count as int;
    let all = v.enumerated_input_count as int;
    if all > 0 {
        assert(0 <= (done * 100_000_000_000) / all) by (nonlinear_arith)
            requires
                all > 0,
                done >= 0,
        ;
    }
}

// Laws -----------------------------------------------------------------------

/// A session in which nothing is known yet is consistent.
pub proof fn no_progress_is_consistent()
    ensures
        consistent(no_progress()),
{
}

/// Finding inputs again keeps a session consistent.
pub proof fn queueing_keeps_consistent(v: ProgressView)
    requires
        consistent(v),
    ensures
        consistent(queueing(v)),
{
    lemma_coarse_bound(v);
    lemma_same_lists(v, queueing(v));
}

/// Two views with the same lists have the same counts.
proof fn lemma_same_lists(v: ProgressView, w: ProgressView)
    requires
        v.artifact_terminal == w.artifact_terminal,
        v.artifact_input == w.artifact_input,
        v.input_artifact_total == w.input_artifact_total,
        v.input_terminal_artifacts == w.input_terminal_artifacts,
    ensures
        terminal_count(v) == terminal_count(w),
        forall|j: int| #[trigger] made_from(v, j) == made_from(w, j),
        forall|j: int| #[trigger] done_from(v, j) == done_from(w, j),
        inputs_done(v) == inputs_done(w),
        inputs_made(v) == inputs_made(w),
{
    lemma_count_same(
        v.artifact_terminal.len(),
        |i: int| v.artifact_terminal[i],
        |i: int| w.artifact_terminal[i],
    );
    assert forall|j: int| #[trigger] made_from(v, j) == made_from(w, j) by {
        lemma_count_same(
            v.artifact_input.len(),
            is_made_from(v, j),
            is_made_from(w, j),
        );
    }
    assert forall|j: int| #[trigger] done_from(v, j) == done_from(w, j) by {
        lemma_count_same(
            v.artifact_input.len(),
            is_done_from(v, j),
            is_done_from(w, j),
        );
    }
    lemma_count_same(
        v.input_artifact_total.len(),
        |j: int| input_done(v, j),
        |j: int| input_done(w, j),
    );
    lemma_count_same(
        v.input_artifact_total.len(),
        |j: int| input_done(v, j) && v.input_artifact_total[j] > 0,
        |j: int| input_done(w, j) && w.input_artifact_total[j] > 0,
    );
}

/// Finding more inputs keeps a session consistent.
pub proof fn enumerated_keeps_consistent(v: ProgressView, count: usize)
    requires
        consistent(v),
    ensures
        consistent(enumerated(v, count)),
{
    let w = enumerated(v, count);
    lemma_coarse_bound(w);
    lemma_coarse_bound(
        ProgressView { enumerated_input_count: w.enumerated_input_count, ..v },
    );
    lemma_same_lists(v, w);
}

/// Registering an input keeps a session consistent.
pub proof fn registered_keeps_consistent(v: ProgressView, count: usize)
    requires
        consistent(v),
        v.target_total + count <= usize::MAX,
        v.input_artifact_total.len() < usize::MAX,
    ensures
        consistent(registered(v, count)),
{
    let w = registered(v, count);
    let n = v.target_total as nat;
    let m = w.target_total as nat;
    let fresh = v.input_artifact_total.len() as int;
    let done = |i: int| w.artifact_terminal[i];
    lemma_count_extend(n, m, done, false);
    lemma_count_same(n, |i: int| v.artifact_terminal[i], done);
    assert forall|j: int| 0 <= j < w.input_artifact_total.len() implies (
    #[trigger] w.input_artifact_total[j]) == made_from(w, j) by {
        let f = is_made_from(w, j);
        lemma_count_extend(n, m, f, j == fresh);
        if j == fresh {
            lemma_count_extend(0, n, f, false);
        } else {
            lemma_count_same(n, is_made_from(v, j), f);
            assert(v.input_artifact_total[j] == made_from(v, j));
        }
    }
    assert forall|j: int| 0 <= j < w.input_artifact_total.len() implies (
    #[trigger] w.input_terminal_artifacts[j]) == done_from(w, j) by {
        let f = is_done_from(w, j);
        lemma_count_extend(n, m, f, false);
        if j == fresh {
            lemma_count_extend(0, n, f, false);
        } else {
            lemma_count_same(
                n,
                is_done_from(v, j),
                f,
            );
            assert(v.input_terminal_artifacts[j] == done_from(v, j));
        }
    }
    let k = v.input_artifact_total.len();
    lemma_count_same(k, |j: int| input_done(v, j), |j: int| input_done(w, j));
    lemma_count_same(
        k,
        |j: int| input_done(v, j) && v.input_artifact_total[j] > 0,
        |j: int| input_done(w, j) && w.input_artifact_total[j] > 0,
    );
}

/// What the counts of a consistent session say of one artifact that is not
/// done: there is room for one more in each.
proof fn lemma_room_for_one(v: ProgressView, index: int, input: int)
    requires
        consistent(v),
        0 <= index < v.target_total,
        !v.artifact_terminal[index],
        input == v.artifact_input[index],
    ensures
        v.completed_count < v.target_total,
        v.input_terminal_artifacts[input] < v.input_artifact_total[input],
        v.completed_input_count < v.input_artifact_total.len(),
{
    let n = v.target_total as nat;
    let t = v.artifact_terminal.update(index, true);
    let more = |i: int| t[i];
    lemma_count_one_more(n, |i: int| v.artifact_terminal[i], more, index);
    lemma_count_bound(n, more);
    assert(v.input_terminal_artifacts[input] == done_from(v, input));
    assert(v.input_artifact_total[input] == made_from(v, input));
    let done = is_done_from(v, input);
    let done_more = |i: int| v.artifact_input[i] == input && t[i];
    lemma_count_one_more(n, done, done_more, index);
    lemma_count_le(n, done_more, is_made_from(v, input));
    let k = v.input_artifact_total.len();
    let complete = |j: int| input_done(v, j);
    let all_complete = |j: int| input_done(v, j) || j == input;
    lemma_count_one_more(k, complete, all_complete, input);
    lemma_count_bound(k, all_complete);
}

proof fn lemma_count_le(n: nat, f: spec_fn(int) -> bool, g: spec_fn(int) -> bool)
    requires
        forall|i: int| 0 <= i < n && #[trigger] f(i) ==> g(i),
    ensures
        count_where(n, f) <= count_where(n, g),
    decreases n,
{
    if n > 0 {
        assert(f(n - 1) ==> g(n - 1));
        lemma_count_le((n - 1) as nat, f, g);
    }
}

/// Updating an artifact keeps a session consistent.
pub proof fn updated_keeps_consistent(v: ProgressView, index: usize, ratio: u64, terminal: bool)
    requires
        consistent(v),
    ensures
        consistent(updated(v, index, ratio, terminal)),
{
    if index < v.target_total {
        let w = advanced(v, index as int, ratio, terminal);
        let u = updated(v, index, ratio, terminal);
        lemma_coarse_bound(w);
        lemma_same_lists(w, u);
        if terminal && !v.artifact_terminal[index as int] {
            lemma_advanced_counts(v, index as int, ratio);
        } else {
            lemma_same_lists(v, w);
        }
        lemma_exact_bound(w);
    }
}

/// An artifact that becomes done adds one to each of the counts it stands in.
proof fn lemma_advanced_counts(v: ProgressView, index: int, ratio: u64)
    requires
        consistent(v),
        0 <= index < v.target_total,
        !v.artifact_terminal[index],
    ensures
        ({
            let w = advanced(v, index, ratio, true);
            &&& w.completed_count == terminal_count(w)
            &&& forall|j: int|
                0 <= j < w.input_artifact_total.len() ==> (#[trigger] w.input_artifact_total[j])
                    == made_from(w, j)
            &&& forall|j: int|
                0 <= j < w.input_artifact_total.len() ==> (#[trigger] w.input_terminal_artifacts[j])
                    == done_from(w, j)
            &&& inputs_made(w) <= w.completed_input_count <= inputs_done(w)
        }),
{
    let w = advanced(v, index, ratio, true);
    let input = v.artifact_input[index] as int;
    lemma_room_for_one(v, index, input);
    let n = v.target_total as nat;
    lemma_count_one_more(
        n,
        |i: int| v.artifact_terminal[i],
        |i: int| w.artifact_terminal[i],
        index,
    );
    assert forall|j: int| 0 <= j < w.input_artifact_total.len() implies (
    #[trigger] w.input_artifact_total[j]) == made_from(w, j) by {
        assert(v.input_artifact_total[j] == made_from(v, j));
        lemma_count_same(
            n,
            is_made_from(v, j),
            is_made_from(w, j),
        );
    }
    assert forall|j: int| 0 <= j < w.input_artifact_total.len() implies (
    #[trigger] w.input_terminal_artifacts[j]) == done_from(w, j) by {
        assert(v.input_terminal_artifacts[j] == done_from(v, j));
        let f = is_done_from(v, j);
        let g = is_done_from(w, j);
        if j == input {
            lemma_count_one_more(n, f, g, index);
        } else {
            lemma_count_same(n, f, g);
        }
    }
    let k = v.input_artifact_total.len();
    let f = |j: int| input_done(v, j);
    let g = |j: int| input_done(w, j);
    let f_made = |j: int| input_done(v, j) && v.input_artifact_total[j] > 0;
    let g_made = |j: int| input_done(w, j) && w.input_artifact_total[j] > 0;
    assert(!f(input));
    if input_done(w, input) {
        lemma_count_one_more(k, f, g, input);
        lemma_count_one_more(k, f_made, g_made, input);
    } else {
        lemma_count_same(k, f, g);
        lemma_count_same(k, f_made, g_made);
    }
}

/// The end of queueing keeps a session consistent.
pub proof fn queueing_finished_keeps_consistent(v: ProgressView)
    requires
        consistent(v),
    ensures
        consistent(queueing_finished(v)),
{
    lemma_exact_bound(v);
    lemma_same_lists(v, queueing_finished(v));
}

/// The end of a session keeps it consistent.
pub proof fn job_finished_keeps_consistent(v: ProgressView)
    requires
        consistent(v),
    ensures
        consistent(job_finished(v)),
{
    let w = job_finished(v);
    let n = v.target_total as nat;
    lemma_count_all(n, |i: int| w.artifact_terminal[i]);
    assert forall|j: int| 0 <= j < w.input_artifact_total.len() implies (
    #[trigger] w.input_artifact_total[j]) == made_from(w, j) && w.input_terminal_artifacts[j]
        == done_from(w, j) by {
        assert(v.input_artifact_total[j] == made_from(v, j));
        lemma_count_same(
            n,
            is_made_from(v, j),
            is_made_from(w, j),
        );
        lemma_count_same(
            n,
            is_made_from(w, j),
            is_done_from(w, j),
        );
    }
    assert forall|j: int| 0 <= j < w.input_artifact_total.len() implies (
    #[trigger] w.input_terminal_artifacts[j]) == done_from(w, j) by {
        assert(w.input_artifact_total[j] == made_from(w, j));
    }
    let k = v.input_artifact_total.len();
    lemma_count_all(k, |j: int| input_done(w, j));
    lemma_count_bound(k, |j: int| input_done(w, j) && w.input_artifact_total[j] > 0);
}

/// While inputs are being found, what an artifact has reached short of its end
/// does not move the display.
pub proof fn partial_progress_does_not_move_queueing(v: ProgressView, index: usize, ratio: u64)
    requires
        consistent(v),
        v.phase == ProgressPhase::Queueing,
        v.percent == coarse_percent(v),
    ensures
        updated(v, index, ratio, false).percent == v.percent,
        updated(v, index, ratio, false).completed_input_count == v.completed_input_count,
{
}

/// While inputs are being found, the display stays below its cap.
pub proof fn queueing_is_capped(v: ProgressView, count: usize, index: usize, ratio: u64, terminal: bool)
    requires
        consistent(v),
        v.phase == ProgressPhase::Queueing,
        v.percent <= QUEUEING_CAP,
    ensures
        queueing(v).percent <= QUEUEING_CAP,
        enumerated(v, count).percent <= QUEUEING_CAP,
        updated(v, index, ratio, terminal).percent <= QUEUEING_CAP,
{
    lemma_coarse_bound(v);
    lemma_coarse_bound(
        ProgressView { enumerated_input_count: enumerated(v, count).enumerated_input_count, ..v },
    );
    lemma_coarse_bound(advanced(v, index as int, ratio, terminal));
}

/// Once all inputs are known, the display never falls.
pub proof fn exact_progress_never_falls(v: ProgressView, index: usize, ratio: u64, terminal: bool)
    requires
        consistent(v),
        v.phase == ProgressPhase::Exact,
    ensures
        updated(v, index, ratio, terminal).percent >= v.percent,
        updated(v, index, ratio, terminal).phase == ProgressPhase::Exact,
{
    if index < v.target_total {
        updated_keeps_consistent(v, index, ratio, terminal);
        lemma_exact_bound(advanced(v, index as int, ratio, terminal));
    }
}

/// What an artifact has reached stays reached, and what is done stays done.
pub proof fn artifacts_never_fall_back(
    v: ProgressView,
    index: usize,
    ratio: u64,
    terminal: bool,
    other: int,
)
    requires
        consistent(v),
        0 <= other < v.target_total,
    ensures
        updated(v, index, ratio, terminal).artifact_progress[other] >= v.artifact_progress[other],
        v.artifact_terminal[other] ==> updated(v, index, ratio, terminal).artifact_terminal[other],
{
}

/// An artifact that is done a second time counts once.
pub proof fn done_twice_counts_once(v: ProgressView, index: usize, first: u64, second: u64)
    requires
        consistent(v),
    ensures
        updated(updated(v, index, first, true), index, second, true) == updated(
            v,
            index,
            first,
            true,
        ),
{
    if index < v.target_total {
        let once = updated(v, index, first, true);
        let twice = updated(once, index, second, true);
        updated_keeps_consistent(v, index, first, true);
        assert(once.artifact_progress[index as int] == WHOLE);
        assert(once.artifact_terminal[index as int]);
        assert(twice.artifact_progress =~= once.artifact_progress);
        lemma_exact_bound(advanced(v, index as int, first, true));
        assert(twice =~= once);
    }
}

/// An input counts as done only where every artifact made from it is done.
pub proof fn an_input_is_done_with_its_last_artifact(v: ProgressView, input: int, index: int)
    requires
        consistent(v),
        0 <= input < v.input_artifact_total.len(),
        0 <= index < v.target_total,
        v.artifact_input[index] == input,
        !v.artifact_terminal[index],
    ensures
        !input_done(v, input),
{
    lemma_room_for_one(v, index, input);
}

/// Inputs that lead to no artifact weigh on the display only while inputs are
/// being found.
pub proof fn rejected_inputs_weigh_on_queueing_only(v: ProgressView, count: usize)
    requires
        consistent(v),
    ensures
        queueing_finished(enumerated(v, count)).percent == queueing_finished(v).percent,
{
}

/// At the end of a session everything is done, whatever became of it.
pub proof fn finished_job_is_complete(v: ProgressView)
    requires
        consistent(v),
    ensures
        ({
            let w = job_finished(v);
            &&& w.percent == FULL_PERCENT
            &&& w.completed_count == w.target_total
            &&& w.completed_input_count == w.input_artifact_total.len()
            &&& forall|i: int| 0 <= i < w.target_total ==> #[trigger] w.artifact_terminal[i]
            &&& forall|j: int| 0 <= j < w.input_artifact_total.len() ==> #[trigger] input_done(w, j)
        }),
{
}

// The session ----------------------------------------------------------------

impl Default for OverallProgress {
    fn default() -> (r: Self)
        ensures
            r@ == no_progress(),
            consistent(r@),
    {
        let r = OverallProgress {
            artifact_progress: Vec::new(),
            artifact_terminal: Vec::new(),
            artifact_input: Vec::new(),
            input_artifact_total: Vec::new(),
            input_terminal_artifacts: Vec::new(),
            percent: 0,
            completed_count: 0,
            target_total: 0,
            enumerated_input_count: 0,
            completed_input_count: 0,
            phase: ProgressPhase::Queueing,
            scan_complete: false,
        };
        assert(r@ =~= no_progress());
        r
    }
}

impl OverallProgress {
    /// Forgets everything.
    pub fn reset(&mut self)
        ensures
            final(self)@ == no_progress(),
            consistent(final(self)@),
    {
        *self = OverallProgress::default();
    }

    /// The inputs that are done among those found so far.
    fn coarse_percent(&self) -> (r: u64)
        ensures
            r == coarse_percent(self@),
            r <= QUEUEING_CAP,
    {
        proof {
            lemma_coarse_bound(self@);
        }
        if self.enumerated_input_count == 0 {
            return 0;
        }
        let done: u128 = self.completed_input_count as u128;
        let all: u128 = self.enumerated_input_count as u128;
        let share: u128 = done * 100_000_000_000 / all;
        if share <= QUEUEING_CAP as u128 {
            share as u64
        } else {
            QUEUEING_CAP
        }
    }

    /// The mean progress of the artifacts.
    fn exact_percent(&self) -> (r: u64)
        requires
            self@.artifact_progress.len() == self@.target_total,
            forall|i: int|
                0 <= i < self@.target_total ==> (#[trigger] self@.artifact_progress[i]) <= WHOLE,
        ensures
            r == exact_percent(self@),
            r <= FULL_PERCENT,
    {
        let mut total: u128 = 0;
        let mut i: usize = 0;
        assert(self@.artifact_progress.take(0) =~= seq![]);
        while i < self.artifact_progress.len()
            invariant
                i <= self@.artifact_progress.len(),
                total == sum(self@.artifact_progress.take(i as int)),
                total <= i * 1_000_000_000,
                forall|k: int|
                    0 <= k < self@.artifact_progress.len() ==> (
                    #[trigger] self@.artifact_progress[k]) <= WHOLE,
            decreases self@.artifact_progress.len() - i,
        {
            assert(self@.artifact_progress[i as int] <= WHOLE);
            assert(self@.artifact_progress.take(i + 1) =~= self@.artifact_progress.take(
                i as int,
            ).push(self@.artifact_progress[i as int]));
            proof {
                lemma_sum_push(
                    self@.artifact_progress.take(i as int),
                    self@.artifact_progress[i as int],
                );
            }
            total = total + self.artifact_progress[i] as u128;
            i = i + 1;
        }
        assert(self@.artifact_progress.take(i as int) =~= self@.artifact_progress);
        proof {
            lemma_exact_bound(self@);
        }
        let count: u128 = if self.target_total == 0 {
            1
        } else {
            self.target_total as u128
        };
        (total * 100 / count) as u64
    }

    /// Inputs are being found again; the display may fall.
    pub fn begin_queueing(&mut self)
        requires
            consistent(old(self)@),
        ensures
            final(self)@ == queueing(old(self)@),
            consistent(final(self)@),
    {
        proof {
            queueing_keeps_consistent(self@);
        }
        self.percent = self.coarse_percent();
        self.phase = ProgressPhase::Queueing;
        self.scan_complete = false;
        assert(self@ =~= queueing(old(self)@));
    }

    /// More inputs were found.
    pub fn add_enumerated_inputs(&mut self, count: usize)
        requires
            consistent(old(self)@),
        ensures
            final(self)@ == enumerated(old(self)@, count),
            consistent(final(self)@),
    {
        proof {
            enumerated_keeps_consistent(self@, count);
        }
        let room: usize = usize::MAX - self.enumerated_input_count;
        self.enumerated_input_count = if count <= room {
            self.enumerated_input_count + count
        } else {
            usize::MAX
        };
        if self.phase == ProgressPhase::Queueing {
            self.percent = self.coarse_percent();
        }
        assert(self@ =~= enumerated(old(self)@, count));
    }

    /// One more input, from which that many artifacts will be made; returns the
    /// index of the first.
    pub fn register_input(&mut self, artifact_count: usize) -> (first: usize)
        requires
            consistent(old(self)@),
            old(self)@.target_total + artifact_count <= usize::MAX,
            old(self)@.input_artifact_total.len() < usize::MAX,
        ensures
            first == old(self)@.target_total,
            final(self)@ == registered(old(self)@, artifact_count),
            consistent(final(self)@),
    {
        proof {
            registered_keeps_consistent(self@, artifact_count);
        }
        let first: usize = self.artifact_progress.len();
        let input_index: usize = self.input_artifact_total.len();
        let mut i: usize = 0;
        while i < artifact_count
            invariant
                i <= artifact_count,
                old(self)@.artifact_progress.len() + artifact_count <= usize::MAX,
                input_index == old(self)@.input_artifact_total.len(),
                self@ == (ProgressView {
                    artifact_progress: old(self)@.artifact_progress + Seq::new(
                        i as nat,
                        |k: int| 0u64,
                    ),
                    artifact_terminal: old(self)@.artifact_terminal + Seq::new(
                        i as nat,
                        |k: int| false,
                    ),
                    artifact_input: old(self)@.artifact_input + Seq::new(
                        i as nat,
                        |k: int| old(self)@.input_artifact_total.len() as usize,
                    ),
                    ..old(self)@
                }),
            decreases artifact_count - i,
        {
            self.artifact_progress.push(0);
            self.artifact_terminal.push(false);
            self.artifact_input.push(input_index);
            i = i + 1;
        }
        self.input_artifact_total.push(artifact_count);
        self.input_terminal_artifacts.push(0);
        self.target_total = self.artifact_progress.len();
        assert(self@ =~= registered(old(self)@, artifact_count));
        first
    }

    /// An artifact has come to `ratio`, in billionths, or is done.
    pub fn update(&mut self, index: usize, ratio: u64, terminal: bool)
        requires
            consistent(old(self)@),
        ensures
            final(self)@ == updated(old(self)@, index, ratio, terminal),
            consistent(final(self)@),
    {
        proof {
            updated_keeps_consistent(self@, index, ratio, terminal);
        }
        if index >= self.artifact_progress.len() {
            return;
        }
        let previous: u64 = self.artifact_progress[index];
        let next: u64 = if terminal || ratio > WHOLE {
            WHOLE
        } else {
            ratio
        };
        self.artifact_progress.set(
            index,
            if previous >= next {
                previous
            } else {
                next
            },
        );
        if terminal && !self.artifact_terminal[index] {
            let input_index: usize = self.artifact_input[index];
            proof {
                lemma_room_for_one(old(self)@, index as int, input_index as int);
            }
            self.artifact_terminal.set(index, true);
            self.completed_count = self.completed_count + 1;
            let done: usize = self.input_terminal_artifacts[input_index] + 1;
            self.input_terminal_artifacts.set(input_index, done);
            if done == self.input_artifact_total[input_index] {
                self.completed_input_count = self.completed_input_count + 1;
            }
        }
        let ghost w = advanced(old(self)@, index as int, ratio, terminal);
        assert(self@ =~= w);
        self.percent = match self.phase {
            ProgressPhase::Queueing => self.coarse_percent(),
            ProgressPhase::Exact => {
                let exact: u64 = self.exact_percent();
                if self.percent >= exact {
                    self.percent
                } else {
                    exact
                }
            },
        };
        assert(self@ =~= updated(old(self)@, index, ratio, terminal));
    }

    /// As `update`; returns whether the display is to be sent: always once all
    /// inputs are known, and before that where an input was done.
    pub fn report(&mut self, index: usize, ratio: u64, terminal: bool) -> (emit: bool)
        requires
            consistent(old(self)@),
        ensures
            final(self)@ == updated(old(self)@, index, ratio, terminal),
            consistent(final(self)@),
            emit == (final(self)@.phase == ProgressPhase::Exact
                || final(self)@.completed_input_count != old(self)@.completed_input_count),
    {
        let before: usize = self.completed_input_count;
        self.update(index, ratio, terminal);
        self.phase == ProgressPhase::Exact || self.completed_input_count != before
    }

    /// All inputs are known; the display may fall once.
    pub fn finish_queueing(&mut self)
        requires
            consistent(old(self)@),
        ensures
            final(self)@ == queueing_finished(old(self)@),
            consistent(final(self)@),
    {
        proof {
            queueing_finished_keeps_consistent(self@);
        }
        self.percent = self.exact_percent();
        self.phase = ProgressPhase::Exact;
        self.scan_complete = true;
        assert(self@ =~= queueing_finished(old(self)@));
    }

    /// The session is over: everything is done.
    pub fn finish_job(&mut self)
        requires
            consistent(old(self)@),
        ensures
            final(self)@ == job_finished(old(self)@),
            consistent(final(self)@),
    {
        proof {
            job_finished_keeps_consistent(self@);
        }
        let mut i: usize = 0;
        while i < self.artifact_progress.len()
            invariant
                i <= old(self)@.artifact_progress.len(),
                old(self)@.artifact_progress.len() == old(self)@.artifact_terminal.len(),
                self@ == (ProgressView {
                    artifact_progress: self@.artifact_progress,
                    artifact_terminal: self@.artifact_terminal,
                    ..old(self)@
                }),
                self@.artifact_progress.len() == old(self)@.artifact_progress.len(),
                self@.artifact_terminal.len() == old(self)@.artifact_terminal.len(),
                forall|k: int| 0 <= k < i ==> self@.artifact_progress[k] == WHOLE,
                forall|k: int| 0 <= k < i ==> self@.artifact_terminal[k],
            decreases old(self)@.artifact_progress.len() - i,
        {
            self.artifact_progress.set(i, WHOLE);
            self.artifact_terminal.set(i, true);
            i = i + 1;
        }
        let ghost lists = self@;
        assert(lists.artifact_progress =~= job_finished(old(self)@).artifact_progress);
        assert(lists.artifact_terminal =~= job_finished(old(self)@).artifact_terminal);
        let mut j: usize = 0;
        while j < self.input_artifact_total.len()
            invariant
                j <= lists.input_artifact_total.len(),
                lists.input_artifact_total.len() == lists.input_terminal_artifacts.len(),
                self@ == (ProgressView {
                    input_terminal_artifacts: self@.input_terminal_artifacts,
                    ..lists
                }),
                self@.input_terminal_artifacts.len() == lists.input_artifact_total.len(),
                forall|k: int|
                    0 <= k < j ==> self@.input_terminal_artifacts[k]
                        == lists.input_artifact_total[k],
            decreases lists.input_artifact_total.len() - j,
        {
            let total: usize = self.input_artifact_total[j];
            self.input_terminal_artifacts.set(j, total);
            j = j + 1;
        }
        assert(self@.input_terminal_artifacts =~= lists.input_artifact_total);
        self.completed_count = self.target_total;
        self.completed_input_count = self.input_artifact_total.len();
        self.phase = ProgressPhase::Exact;
        self.scan_complete = true;
        self.percent = FULL_PERCENT;
        assert(self@ =~= job_finished(old(self)@));
    }

    /// How many artifacts and inputs wait, where that many are being worked on:
    /// the artifacts that are known and the inputs of which nothing is known
    /// yet, less what is done or being worked on.
    pub fn waiting_count(&self, processing: usize) -> (r: usize)
        ensures
            r == waiting(self@, processing),
    {
        let unresolved: usize = self.enumerated_input_count.saturating_sub(
            self.input_artifact_total.len(),
        );
        let base: usize = self.target_total.saturating_add(unresolved);
        base.saturating_sub(self.completed_count).saturating_sub(processing)
    }
}

/// The artifacts that are known and the inputs of which nothing is known yet,
/// less what is done or being worked on.
pub open spec fn waiting(v: ProgressView, processing: usize) -> int {
    let unresolved = max_int(v.enumerated_input_count - v.input_artifact_total.len(), 0);
    let base = min_int(v.target_total + unresolved, usize::MAX as int);
    max_int(max_int(base - v.completed_count, 0) - processing, 0)
}

// Stages ---------------------------------------------------------------------

/// A ratio that is no more than a whole.
pub open spec fn at_most_whole(ratio: u64) -> int {
    min_int(ratio as int, WHOLE as int)
}

/// The first tenth of an artifact, of which a part is done.
pub open spec fn prepared_share(ratio: u64) -> int {
    at_most_whole(ratio) / 10
}

/// The eight tenths after the first, of which a part is done.
pub open spec fn converted_share(ratio: u64) -> int {
    WHOLE / 10 + at_most_whole(ratio) * 8 / 10
}

/// The last tenth, of which a part is done.
pub open spec fn uploaded_share(ratio: u64) -> int {
    9 * (WHOLE / 10) + at_most_whole(ratio) / 10
}

/// How far an artifact has come when its input has been brought to `ratio`:
/// the first tenth.
pub fn input_preparation_progress(ratio: u64) -> (r: u64)
    ensures
        r == prepared_share(ratio),
{
    if ratio > WHOLE {
        WHOLE / 10
    } else {
        ratio / 10
    }
}

/// How far an artifact has come when FFmpeg has come to `ratio`: the eight
/// tenths after the first.
pub fn ffmpeg_stage_progress(ratio: u64) -> (r: u64)
    ensures
        r == converted_share(ratio),
{
    let part: u64 = if ratio > WHOLE {
        WHOLE
    } else {
        ratio
    };
    WHOLE / 10 + part * 8 / 10
}

/// How far an artifact has come when its copy to the network has come to
/// `ratio`: the last tenth.
pub fn output_stage_progress(ratio: u64) -> (r: u64)
    ensures
        r == uploaded_share(ratio),
{
    let part: u64 = if ratio > WHOLE {
        WHOLE
    } else {
        ratio
    };
    9 * (WHOLE / 10) + part / 10
}

/// The stages of an artifact cover it from start to end: each begins where the
/// one before ended, and none runs backwards.
pub proof fn stages_cover_the_artifact(earlier: u64, later: u64)
    requires
        earlier <= later,
    ensures
        prepared_share(0) == 0,
        prepared_share(WHOLE) == WHOLE / 10,
        converted_share(0) == WHOLE / 10,
        converted_share(WHOLE) == WHOLE - WHOLE / 10,
        uploaded_share(0) == WHOLE - WHOLE / 10,
        uploaded_share(WHOLE) == WHOLE,
        prepared_share(earlier) <= prepared_share(later) <= WHOLE / 10,
        WHOLE / 10 <= converted_share(earlier) <= converted_share(later) <= WHOLE - WHOLE / 10,
        WHOLE - WHOLE / 10 <= uploaded_share(earlier) <= uploaded_share(later) <= WHOLE,
        earlier <= WHOLE ==> (converted_share(earlier) - WHOLE / 10) * 10 <= earlier * 8 < (
        converted_share(earlier) - WHOLE / 10 + 1) * 10,
{
}

/// The part of `done` in `whole`, in billionths; a whole where there is nothing
/// to do.
pub open spec fn copied_ratio(done: u64, whole: u64) -> int {
    if whole == 0 {
        WHOLE as int
    } else {
        min_int(done * WHOLE / (whole as int), u64::MAX as int)
    }
}

/// How far a copy has come.
pub fn copy_ratio(done: u64, whole: u64) -> (r: u64)
    ensures
        r == copied_ratio(done, whole),
{
    if whole == 0 {
        return WHOLE;
    }
    let share: u128 = done as u128 * 1_000_000_000 / whole as u128;
    if share > u64::MAX as u128 {
        u64::MAX
    } else {
        share as u64
    }
}

// What the display shows -----------------------------------------------------

/// While inputs are still being found the display shows the part of them that is
/// done, but never all; once all are known it shows the mean of how far the
/// artifacts have come.
pub proof fn the_display_is_a_share(v: ProgressView)
    requires
        consistent(v),
    ensures
        v.enumerated_input_count == 0 ==> coarse_percent(v) == 0,
        v.enumerated_input_count > 0 ==> coarse_percent(v) * v.enumerated_input_count
            <= v.completed_input_count * FULL_PERCENT,
        v.enumerated_input_count > 0 && coarse_percent(v) < 99_000_000_000
            ==> v.completed_input_count * FULL_PERCENT < (coarse_percent(v) + 1)
            * v.enumerated_input_count,
        0 <= coarse_percent(v) <= 99_000_000_000,
        v.target_total > 0 ==> exact_percent(v) * v.target_total <= 100 * sum(v.artifact_progress),
        v.target_total > 0 ==> 100 * sum(v.artifact_progress) < (exact_percent(v) + 1)
            * v.target_total,
        v.target_total == 0 ==> exact_percent(v) == 0,
{
    let n = v.enumerated_input_count as int;
    let c = v.completed_input_count * FULL_PERCENT;
    if n > 0 {
        let share = c / n;
        assert(0 <= share && share * n <= c && c < (share + 1) * n) by (nonlinear_arith)
            requires
                n > 0,
                c >= 0,
                share == c / n,
        ;
        let p = coarse_percent(v);
        assert(p * n <= share * n) by (nonlinear_arith)
            requires
                p <= share,
                n > 0,
        ;
    }
    let t = v.target_total as int;
    let s = (sum(v.artifact_progress) * 100) as int;
    if t > 0 {
        let e = s / t;
        assert(e * t <= s && s < (e + 1) * t) by (nonlinear_arith)
            requires
                t > 0,
                e == s / t,
        ;
    } else {
        assert(v.artifact_progress.len() == 0);
    }
}

/// Reporting on an artifact moves it to where it is said to be, but never back and
/// never beyond its end, and to its end where it is done; no other moves.
pub proof fn a_report_moves_one_artifact(
    v: ProgressView,
    index: usize,
    ratio: u64,
    terminal: bool,
    other: int,
)
    requires
        consistent(v),
        index < v.target_total,
        0 <= other < v.target_total,
    ensures
        ({
            let now = updated(v, index, ratio, terminal);
            let was = v.artifact_progress[index as int];
            &&& terminal ==> now.artifact_progress[index as int] == WHOLE
                && now.artifact_terminal[index as int]
            &&& !terminal && ratio <= WHOLE ==> now.artifact_progress[index as int] == if ratio
                > was {
                ratio
            } else {
                was
            }
            &&& !terminal && ratio > WHOLE ==> now.artifact_progress[index as int] == WHOLE
            &&& !terminal ==> now.artifact_terminal == v.artifact_terminal && now.completed_count
                == v.completed_count
            &&& terminal && !v.artifact_terminal[index as int] ==> now.completed_count
                == v.completed_count + 1
            &&& terminal && v.artifact_terminal[index as int] ==> now.completed_count
                == v.completed_count
            &&& other != index ==> now.artifact_progress[other] == v.artifact_progress[other]
                && now.artifact_terminal[other] == v.artifact_terminal[other]
            &&& now.target_total == v.target_total && now.enumerated_input_count
                == v.enumerated_input_count && now.phase == v.phase
        }),
{
    assert(v.artifact_progress[index as int] <= WHOLE);
    if !v.artifact_terminal[index as int] {
        lemma_terminal_room(v, index as int);
    }
}

proof fn lemma_terminal_room(v: ProgressView, index: int)
    requires
        consistent(v),
        0 <= index < v.target_total,
        !v.artifact_terminal[index],
    ensures
        v.completed_count < v.target_total,
{
    lemma_count_below(v.artifact_terminal.len(), |i: int| v.artifact_terminal[i], index);
}

proof fn lemma_count_below(n: nat, holds: spec_fn(int) -> bool, index: int)
    requires
        0 <= index < n,
        !holds(index),
    ensures
        count_where(n, holds) < n,
    decreases n,
{
    if index == n - 1 {
        lemma_count_upto((n - 1) as nat, holds);
    } else {
        lemma_count_below((n - 1) as nat, holds, index);
    }
}

proof fn lemma_count_upto(n: nat, holds: spec_fn(int) -> bool)
    ensures
        count_where(n, holds) <= n,
    decreases n,
{
    if n > 0 {
        lemma_count_upto((n - 1) as nat, holds);
    }
}

/// A new input brings as many artifacts as it is said to, none of which has begun;
/// those before keep their numbers and where they are.
pub proof fn a_new_input_has_not_begun(v: ProgressView, count: usize, i: int)
    requires
        consistent(v),
        v.target_total + count <= usize::MAX,
        0 <= i < v.target_total + count,
    ensures
        ({
            let now = registered(v, count);
            &&& now.target_total == v.target_total + count
            &&& now.input_artifact_total.last() == count
            &&& now.completed_count == v.completed_count && now.percent == v.percent
            &&& i < v.target_total ==> now.artifact_progress[i] == v.artifact_progress[i]
                && now.artifact_terminal[i] == v.artifact_terminal[i]
            &&& i >= v.target_total ==> now.artifact_progress[i] == 0 && !now.artifact_terminal[i]
        }),
{
}

/// What is waiting is what is neither done nor being worked on, of the artifacts
/// that are known and of the inputs of which none is known yet.
pub proof fn what_is_not_done_is_waiting(v: ProgressView, processing: usize)
    requires
        consistent(v),
        v.completed_count <= v.target_total,
        v.target_total + v.enumerated_input_count <= usize::MAX,
        processing <= v.target_total - v.completed_count,
    ensures
        v.enumerated_input_count >= v.input_artifact_total.len() ==> waiting(v, processing)
            + processing + v.completed_count == v.target_total + v.enumerated_input_count
            - v.input_artifact_total.len(),
        v.enumerated_input_count < v.input_artifact_total.len() ==> waiting(v, processing)
            + processing + v.completed_count == v.target_total,
{
}

/// A copy has come as far as the part of its bytes that is copied: nowhere at
/// first, all the way at last, and never back.
pub proof fn a_copy_comes_as_far_as_its_bytes(done: u64, later: u64, whole: u64)
    requires
        done <= later <= whole,
        0 < whole,
    ensures
        copied_ratio(0, whole) == 0,
        copied_ratio(whole, whole) == WHOLE,
        copied_ratio(done, whole) <= copied_ratio(later, whole) <= WHOLE,
        copied_ratio(done, whole) * whole <= done * WHOLE,
        done * WHOLE < (copied_ratio(done, whole) + 1) * whole,
        copied_ratio(0, 0) == WHOLE,
{
    let w = whole as int;
    let d = done as int;
    let l = later as int;
    let t = WHOLE as int;
    assert(0 * t / w == 0) by (nonlinear_arith)
        requires
            w > 0,
    ;
    assert(w * t / w == t) by (nonlinear_arith)
        requires
            w > 0,
    ;
    let a = d * t / w;
    let b = l * t / w;
    assert(a <= b && b <= t) by (nonlinear_arith)
        requires
            0 <= d <= l <= w,
            w > 0,
            t > 0,
            a == d * t / w,
            b == l * t / w,
    ;
    assert(0 <= a && a * w <= d * t && d * t < (a + 1) * w) by (nonlinear_arith)
        requires
            0 <= d,
            w > 0,
            t > 0,
            a == d * t / w,
    ;
}

/// The display says whether inputs are still being found: they are from the start
/// of a batch on, and are not once all of a session are known. Nothing but what is
/// displayed is changed by that.
pub proof fn the_display_says_what_it_counts(v: ProgressView)
    requires
        consistent(v),
    ensures
        queueing(v).phase == ProgressPhase::Queueing && !queueing(v).scan_complete,
        queueing_finished(v).phase == ProgressPhase::Exact && queueing_finished(v).scan_complete,
        queueing(v).percent == coarse_percent(v),
        exact_percent(v) <= FULL_PERCENT ==> queueing_finished(v).percent == exact_percent(v),
        queueing(v).artifact_progress == v.artifact_progress,
        queueing_finished(v).artifact_progress == v.artifact_progress,
        queueing(v).completed_count == v.completed_count && queueing_finished(v).completed_count
            == v.completed_count,
        no_progress().percent == 0 && no_progress().target_total == 0
            && no_progress().completed_count == 0 && no_progress().enumerated_input_count == 0,
{
    the_display_is_a_share(v);
    let t = v.target_total as int;
    let s = (sum(v.artifact_progress) * 100) as int;
    if t > 0 {
        assert(s / t >= 0) by (nonlinear_arith)
            requires
                s >= 0,
                t > 0,
        ;
    }
}

/// Inputs that are found are counted, and change nothing else but what is displayed
/// while they are being found.
pub proof fn found_inputs_are_counted(v: ProgressView, count: usize)
    requires
        v.enumerated_input_count + count <= usize::MAX,
    ensures
        enumerated(v, count).enumerated_input_count == v.enumerated_input_count + count,
        enumerated(v, count).completed_input_count == v.completed_input_count,
        enumerated(v, count).artifact_progress == v.artifact_progress,
        enumerated(v, count).phase == v.phase,
        v.phase == ProgressPhase::Exact ==> enumerated(v, count).percent == v.percent,
{
}

} // verus!
