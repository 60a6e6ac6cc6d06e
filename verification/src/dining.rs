//! Workers at a round table who share the chopsticks between them.
//!
//! Worker `i` needs chopstick `i` and the next one round the table. It
//! thinks, takes the two, eats and puts them back, again and again. A worker
//! always takes the chopstick with the lower number first
//! ([`acquisition_order`]). That one rule keeps the workers from ever all
//! holding one chopstick and waiting for the other: see
//! [`lemma_any_schedule`], which follows the workers through every order in
//! which they may take their steps.

use rand::Rng;
use vstd::arithmetic::div_mod::lemma_mod_self_0;
use vstd::arithmetic::div_mod::lemma_small_mod;
use vstd::prelude::*;

verus! {

/// The number of workers, and of chopsticks, at the table of the
/// demonstration.
pub const SEATS: usize = 6;

/// The shortest time, in milliseconds, that a worker thinks or eats.
pub const PAUSE_MIN_MS: u64 = 10;

/// The time, in milliseconds, that thinking and eating stay below.
pub const PAUSE_END_MS: u64 = 100;

/// The chopstick after `i` round a table of `n`: `(i + 1) mod n`.
pub open spec fn after(i: int, n: int) -> int {
    if i + 1 == n {
        0
    } else {
        i + 1
    }
}

/// The chopstick that worker `i` takes first: the lower of its two.
pub open spec fn first_pick(i: int, n: int) -> int {
    if i < after(i, n) {
        i
    } else {
        after(i, n)
    }
}

/// The chopstick that worker `i` takes second: the higher of its two.
pub open spec fn second_pick(i: int, n: int) -> int {
    if i < after(i, n) {
        after(i, n)
    } else {
        i
    }
}

/// The two chopsticks of worker `i` at a table of `n`, in the order in
/// which it takes them: the lower number first.
pub fn acquisition_order(i: usize, n: usize) -> (pair: (usize, usize))
    requires
        i < n,
    ensures
        pair.0 == first_pick(i as int, n as int),
        pair.1 == second_pick(i as int, n as int),
        pair.0 <= pair.1 < n,
        n >= 2 ==> pair.0 < pair.1,
{
    let x: usize = i;
    let y: usize = (i + 1) % n;
    proof {
        if i + 1 == n {
            lemma_mod_self_0(n as int);
        } else {
            lemma_small_mod((i + 1) as nat, n as nat);
        }
    }
    if x < y {
        (x, y)
    } else {
        (y, x)
    }
}

/// What a worker is doing.
#[derive(Debug, Copy, Clone, PartialEq, Eq, Structural)]
pub enum Phase {
    /// It holds no chopstick.
    Thinking,
    /// It holds its first chopstick and wants its second.
    Reaching,
    /// It holds both chopsticks.
    Eating,
}

/// The table at one moment.
pub struct TableState {
    /// What each worker is doing.
    pub phases: Seq<Phase>,
    /// For each chopstick, the worker that holds it, if one does.
    pub holders: Seq<Option<usize>>,
}

impl TableState {
    /// The number of workers.
    pub open spec fn seats(self) -> int {
        self.phases.len() as int
    }

    /// Whether worker `w` holds chopstick `r`, going by what it is doing.
    pub open spec fn holds(self, w: int, r: int) -> bool {
        let n = self.seats();
        match self.phases[w] {
            Phase::Thinking => false,
            Phase::Reaching => r == first_pick(w, n),
            Phase::Eating => r == first_pick(w, n) || r == second_pick(w, n),
        }
    }
}

/// A table of `n` workers who all think.
pub open spec fn initial(n: int) -> TableState {
    TableState {
        phases: Seq::new(n as nat, |w: int| Phase::Thinking),
        holders: Seq::new(n as nat, |r: int| None),
    }
}

/// Whether worker `w` can move: the chopstick that it wants next is free,
/// or it is eating and can put its chopsticks back.
pub open spec fn enabled(s: TableState, w: int) -> bool {
    let n = s.seats();
    &&& 0 <= w < n
    &&& match s.phases[w] {
        Phase::Thinking => s.holders[first_pick(w, n)] is None,
        Phase::Reaching => s.holders[second_pick(w, n)] is None,
        Phase::Eating => true,
    }
}

/// The table after worker `w` has tried to move.
pub open spec fn next(s: TableState, w: int) -> TableState {
    let n = s.seats();
    if !enabled(s, w) {
        s
    } else {
        match s.phases[w] {
            Phase::Thinking => TableState {
                phases: s.phases.update(w, Phase::Reaching),
                holders: s.holders.update(first_pick(w, n), Some(w as usize)),
            },
            Phase::Reaching => TableState {
                phases: s.phases.update(w, Phase::Eating),
                holders: s.holders.update(second_pick(w, n), Some(w as usize)),
            },
            Phase::Eating => TableState {
                phases: s.phases.update(w, Phase::Thinking),
                holders: s.holders.update(first_pick(w, n), None).update(second_pick(w, n), None),
            },
        }
    }
}

/// The table of `n` after the workers have tried to move in the order
/// `schedule`.
pub open spec fn reach(n: int, schedule: Seq<usize>) -> TableState
    decreases schedule.len(),
{
    if schedule.len() == 0 {
        initial(n)
    } else {
        next(reach(n, schedule.drop_last()), schedule.last() as int)
    }
}

/// What holds of the table at every moment: there are at least two
/// workers, and a chopstick is marked as held by a worker exactly when that
/// worker, going by what it is doing, holds it.
pub open spec fn inv(s: TableState) -> bool {
    let n = s.seats();
    &&& 2 <= n <= usize::MAX
    &&& s.holders.len() == n
    &&& forall|r: int|
        0 <= r < n ==> (#[trigger] s.holders[r] matches Some(w) ==> w < n && s.holds(w as int, r))
    &&& forall|w: int, r: int|
        0 <= w < n && #[trigger] s.holds(w, r) ==> s.holders[r] == Some(w as usize)
}

/// A worker's two chopsticks are on the table, and the first has the lower
/// number.
pub proof fn lemma_picks(w: int, n: int)
    requires
        0 <= w < n,
        2 <= n,
    ensures
        0 <= first_pick(w, n) < second_pick(w, n) < n,
        first_pick(w, n) == w || second_pick(w, n) == w,
{
}

/// A step keeps what holds at every moment.
pub proof fn lemma_step_keeps_inv(s: TableState, w: int)
    requires
        inv(s),
    ensures
        inv(next(s, w)),
        next(s, w).seats() == s.seats(),
{
    let n = s.seats();
    let t = next(s, w);
    if enabled(s, w) {
        lemma_picks(w, n);
        let a = first_pick(w, n);
        let b = second_pick(w, n);
        assert forall|r: int| 0 <= r < n implies (#[trigger] t.holders[r] matches Some(x) ==> x < n
            && t.holds(x as int, r)) by {
            if let Some(x) = t.holders[r] {
                if r != a && r != b {
                    assert(s.holders[r] == Some(x));
                    assert(s.holds(x as int, r));
                } else if s.holders[r] == Some(x) {
                    assert(s.holds(x as int, r));
                }
            }
        }
        assert forall|x: int, r: int| 0 <= x < n && #[trigger] t.holds(x, r) implies t.holders[r]
            == Some(x as usize) by {
            lemma_picks(x, n);
            if x != w {
                assert(s.holds(x, r));
                assert(s.holders[r] == Some(x as usize));
                if s.phases[w] == Phase::Eating {
                    assert(s.holds(w, a));
                    assert(s.holds(w, b));
                } else if s.phases[w] == Phase::Reaching {
                    assert(s.holds(w, a));
                }
            } else {
                if s.phases[w] == Phase::Reaching {
                    assert(s.holds(w, a));
                }
            }
        }
    }
}

/// No chopstick is held by two workers at once.
pub proof fn lemma_mutual_exclusion(s: TableState, one: int, other: int, r: int)
    requires
        inv(s),
        0 <= one < s.seats(),
        0 <= other < s.seats(),
        s.holds(one, r),
        s.holds(other, r),
    ensures
        one == other,
{
}

/// The highest chopstick below `k` that is held, or -1 if none is.
pub open spec fn highest_held(s: TableState, k: int) -> int
    decreases k,
{
    if k <= 0 {
        -1
    } else if s.holders[k - 1] is Some {
        k - 1
    } else {
        highest_held(s, k - 1)
    }
}

proof fn lemma_highest_held(s: TableState, k: int)
    requires
        0 <= k <= s.holders.len(),
    ensures
        -1 <= highest_held(s, k) < k,
        highest_held(s, k) >= 0 ==> s.holders[highest_held(s, k)] is Some,
        forall|r: int| highest_held(s, k) < r < k ==> #[trigger] s.holders[r] is None,
    decreases k,
{
    if k > 0 && s.holders[k - 1] is None {
        lemma_highest_held(s, k - 1);
    }
}

/// The workers never all hold one chopstick and wait for the other, and
/// some worker can always move.
pub proof fn lemma_no_deadlock(s: TableState)
    requires
        inv(s),
    ensures
        exists|w: int| 0 <= w < s.seats() && #[trigger] s.phases[w] != Phase::Reaching,
        exists|w: int| #[trigger] enabled(s, w),
{
    let n = s.seats();
    let last = n - 1;
    lemma_picks(0, n);
    lemma_picks(last, n);
    if s.phases[0] == Phase::Reaching && s.phases[last] == Phase::Reaching {
        assert(s.holds(0, 0));
        assert(s.holds(last, 0));
    }
    lemma_highest_held(s, n);
    let top = highest_held(s, n);
    if top < 0 {
        if s.phases[0] != Phase::Thinking {
            assert(s.holds(0, first_pick(0, n)));
        }
        assert(enabled(s, 0));
    } else {
        let w = s.holders[top]->0 as int;
        assert(s.holds(w, top));
        lemma_picks(w, n);
        assert(enabled(s, w));
    }
}

/// However the steps of the workers follow one another, at a table of at
/// least two: no chopstick is ever held by two workers at once; the workers
/// never all hold one chopstick and wait for the other; and some worker can
/// always move.
pub proof fn lemma_any_schedule(n: int, schedule: Seq<usize>)
    requires
        2 <= n <= usize::MAX,
    ensures
        inv(reach(n, schedule)),
        reach(n, schedule).seats() == n,
        forall|one: int, other: int, r: int|
            #![trigger reach(n, schedule).holds(one, r), reach(n, schedule).holds(other, r)]
            0 <= one < n && 0 <= other < n && reach(n, schedule).holds(one, r) && reach(
                n,
                schedule,
            ).holds(other, r) ==> one == other,
        exists|w: int| 0 <= w < n && #[trigger] reach(n, schedule).phases[w] != Phase::Reaching,
        exists|w: int| #[trigger] enabled(reach(n, schedule), w),
    decreases schedule.len(),
{
    if schedule.len() > 0 {
        lemma_any_schedule(n, schedule.drop_last());
        lemma_step_keeps_inv(reach(n, schedule.drop_last()), schedule.last() as int);
    }
    lemma_no_deadlock(reach(n, schedule));
}

/// The table as a value that can be stepped.
pub struct Table {
    phases: Vec<Phase>,
    holders: Vec<Option<usize>>,
}

impl View for Table {
    type V = TableState;

    closed spec fn view(&self) -> TableState {
        TableState { phases: self.phases@, holders: self.holders@ }
    }
}

impl Table {
    /// A table of `seats` workers who all think. A table needs at least two
    /// workers: a single one would have one chopstick to take twice.
    pub fn new(seats: usize) -> (made: Option<Table>)
        ensures
            made is Some <==> seats >= 2,
            made matches Some(table) ==> table@ == initial(seats as int) && inv(table@),
    {
        if seats < 2 {
            return None;
        }
        let mut phases: Vec<Phase> = Vec::new();
        let mut holders: Vec<Option<usize>> = Vec::new();
        let mut k: usize = 0;
        while k < seats
            invariant
                k <= seats,
                phases@.len() == k,
                holders@.len() == k,
                forall|w: int| 0 <= w < k ==> phases@[w] == Phase::Thinking,
                forall|r: int| 0 <= r < k ==> holders@[r] is None,
            decreases seats - k,
        {
            phases.push(Phase::Thinking);
            holders.push(None);
            k = k + 1;
        }
        let table = Table { phases, holders };
        assert(table@.phases =~= initial(seats as int).phases);
        assert(table@.holders =~= initial(seats as int).holders);
        Some(table)
    }

    /// The number of workers.
    pub fn seats(&self) -> (n: usize)
        ensures
            n == self@.seats(),
    {
        self.phases.len()
    }

    /// What worker `w` is doing.
    pub fn phase_of(&self, w: usize) -> (phase: Phase)
        requires
            w < self@.seats(),
        ensures
            phase == self@.phases[w as int],
    {
        self.phases[w]
    }

    /// The worker that holds chopstick `r`, if one does.
    pub fn holder_of(&self, r: usize) -> (holder: Option<usize>)
        requires
            r < self@.holders.len(),
        ensures
            holder == self@.holders[r as int],
    {
        self.holders[r]
    }

    /// Whether worker `w` can move.
    pub fn can_move(&self, w: usize) -> (b: bool)
        requires
            inv(self@),
        ensures
            b == enabled(self@, w as int),
    {
        let n = self.phases.len();
        if w >= n {
            return false;
        }
        proof {
            lemma_picks(w as int, n as int);
        }
        let (low, high) = acquisition_order(w, n);
        match self.phases[w] {
            Phase::Thinking => self.holders[low].is_none(),
            Phase::Reaching => self.holders[high].is_none(),
            Phase::Eating => true,
        }
    }

    /// Lets worker `w` try to move, and says whether it could. A worker
    /// that thinks takes its first chopstick if that is free; one that holds
    /// its first takes its second if that is free, and eats; one that eats
    /// puts both back and thinks.
    pub fn step(&mut self, w: usize) -> (moved: bool)
        requires
            inv(old(self)@),
        ensures
            final(self)@ == next(old(self)@, w as int),
            moved == enabled(old(self)@, w as int),
            inv(final(self)@),
    {
        proof {
            lemma_step_keeps_inv(self@, w as int);
        }
        if !self.can_move(w) {
            return false;
        }
        let n = self.phases.len();
        proof {
            lemma_picks(w as int, n as int);
        }
        let (low, high) = acquisition_order(w, n);
        match self.phases[w] {
            Phase::Thinking => {
                self.holders.set(low, Some(w));
                self.phases.set(w, Phase::Reaching);
            },
            Phase::Reaching => {
                self.holders.set(high, Some(w));
                self.phases.set(w, Phase::Eating);
            },
            Phase::Eating => {
                self.holders.set(low, None);
                self.holders.set(high, None);
                self.phases.set(w, Phase::Thinking);
            },
        }
        true
    }

    /// A worker that can move: the first in the order of the seats. There
    /// always is one.
    pub fn ready(&self) -> (w: usize)
        requires
            inv(self@),
        ensures
            enabled(self@, w as int),
            forall|v: int| 0 <= v < w ==> !enabled(self@, v),
    {
        proof {
            lemma_no_deadlock(self@);
        }
        let n = self.phases.len();
        let mut w: usize = 0;
        while !self.can_move(w)
            invariant
                inv(self@),
                n == self@.seats(),
                w < n,
                forall|v: int| 0 <= v < w ==> !enabled(self@, v),
                exists|v: int| #[trigger] enabled(self@, v),
            decreases n - w,
        {
            proof {
                let v = choose|v: int| #[trigger] enabled(self@, v);
                assert(w < v < n);
            }
            w = w + 1;
        }
        w
    }

    /// Seats `seats` workers and lets them try to move in the order
    /// `schedule`.
    pub fn play(seats: usize, schedule: &[usize]) -> (made: Option<Table>)
        ensures
            made is Some <==> seats >= 2,
            made matches Some(table) ==> table@ == reach(seats as int, schedule@) && inv(table@),
    {
        let mut table = match Table::new(seats) {
            Some(table) => table,
            None => {
                return None;
            },
        };
        let mut k: usize = 0;
        while k < schedule.len()
            invariant
                k <= schedule@.len(),
                inv(table@),
                table@ == reach(seats as int, schedule@.take(k as int)),
            decreases schedule@.len() - k,
        {
            table.step(schedule[k]);
            proof {
                let done = schedule@.take(k + 1);
                assert(done.drop_last() =~= schedule@.take(k as int));
                assert(done.last() == schedule@[k as int]);
            }
            k = k + 1;
        }
        assert(schedule@.take(k as int) =~= schedule@);
        Some(table)
    }
}

/// The generator of the rand crate that each thread has for itself,
/// `rand::rngs::ThreadRng`. Nothing is known here of what it holds.
#[verifier::external_type_specification]
#[verifier::external_body]
pub struct ExThreadRng(rand::rngs::ThreadRng);

/// A number that `rng` picks from `low` up to, but not including, `high`.
///
/// This is `Rng::gen_range` of the rand crate on the range `low..high`. The
/// contract states what holds of every number it may pick: it lies in the
/// range. The range must not be empty, or `gen_range` panics.
#[verifier::external_body]
fn draw_between(rng: &mut rand::rngs::ThreadRng, low: u64, high: u64) -> (n: u64)
    requires
        low < high,
    ensures
        low <= n < high,
{
    rng.gen_range(low..high)
}

/// How long a worker thinks or eats this time, in milliseconds: a number
/// picked anew at each call, from [`PAUSE_MIN_MS`] up to, but not
/// including, [`PAUSE_END_MS`].
pub fn pause_millis(rng: &mut rand::rngs::ThreadRng) -> (ms: u64)
    ensures
        PAUSE_MIN_MS <= ms < PAUSE_END_MS,
{
    draw_between(rng, PAUSE_MIN_MS, PAUSE_END_MS)
}

} // verus!
