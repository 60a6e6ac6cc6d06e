//! The three stages of the pipeline joined in a ring by queues, with steps
//! taken in any order.
//!
//! A step is an attempt by one stage to move. A stage that has ended, or
//! whose queue is empty, cannot move, and the attempt changes nothing: this
//! is a stage that waits. It is shown that at most one token is ever on the
//! ring, that until the ring has ended exactly one stage can move, and that
//! the text written when it has ended is always the same.

use crate::pipeline::buzz_handler;
use crate::pipeline::buzz_reaction;
use crate::pipeline::buzz_text;
use crate::pipeline::counter_reaction;
use crate::pipeline::fizz_handler;
use crate::pipeline::fizz_reaction;
use crate::pipeline::fizz_text;
use crate::pipeline::line;
use crate::pipeline::line_end;
use crate::pipeline::line_ends_in;
use crate::pipeline::lemma_transcript_lines;
use crate::pipeline::number_text;
use crate::pipeline::transcript;
use crate::pipeline::Counter;
use crate::pipeline::Stage;
use crate::pipeline::LAST;
use crate::pipeline::STOP;
use vstd::prelude::*;

verus! {

/// The ring at one moment.
pub struct RingState {
    /// The number of the counter's next move, from one.
    pub upcoming: nat,
    /// The tokens on their way from the counter to the fizz stage.
    pub to_fizz: Seq<u32>,
    /// The tokens on their way from the fizz stage to the buzz stage.
    pub to_buzz: Seq<u32>,
    /// The tokens on their way from the buzz stage to the counter.
    pub to_counter: Seq<u32>,
    pub counter_done: bool,
    pub fizz_done: bool,
    pub buzz_done: bool,
    /// All that has been written.
    pub output: Seq<char>,
}

/// The ring before any stage has moved.
pub open spec fn initial() -> RingState {
    RingState {
        upcoming: 1,
        to_fizz: Seq::empty(),
        to_buzz: Seq::empty(),
        to_counter: Seq::empty(),
        counter_done: false,
        fizz_done: false,
        buzz_done: false,
        output: Seq::empty(),
    }
}

/// `queue` after a stage has sent `forward` into it.
pub open spec fn deliver(queue: Seq<u32>, forward: Option<u32>) -> Seq<u32> {
    match forward {
        Some(token) => queue.push(token),
        None => queue,
    }
}

/// Whether `stage` can move: it has not ended and what it waits for is
/// there. The counter's first move waits for nothing.
pub open spec fn enabled(s: RingState, stage: Stage) -> bool {
    match stage {
        Stage::Counter => !s.counter_done && (s.upcoming == 1 || s.to_counter.len() > 0),
        Stage::Fizz => !s.fizz_done && s.to_fizz.len() > 0,
        Stage::Buzz => !s.buzz_done && s.to_buzz.len() > 0,
    }
}

/// The first stage that can move, in the order in which the token visits
/// them, if any can.
pub open spec fn first_enabled(s: RingState) -> Option<Stage> {
    if enabled(s, Stage::Counter) {
        Some(Stage::Counter)
    } else if enabled(s, Stage::Fizz) {
        Some(Stage::Fizz)
    } else if enabled(s, Stage::Buzz) {
        Some(Stage::Buzz)
    } else {
        None
    }
}

/// The ring after `stage` has tried to move.
pub open spec fn next(s: RingState, stage: Stage) -> RingState {
    if !enabled(s, stage) {
        s
    } else {
        match stage {
            Stage::Counter => {
                let r = counter_reaction(s.upcoming);
                RingState {
                    upcoming: if s.upcoming <= LAST {
                        s.upcoming + 1
                    } else {
                        s.upcoming
                    },
                    to_counter: if s.upcoming == 1 {
                        s.to_counter
                    } else {
                        s.to_counter.drop_first()
                    },
                    to_fizz: deliver(s.to_fizz, r.forward),
                    counter_done: r.done,
                    output: s.output + r.text,
                    ..s
                }
            },
            Stage::Fizz => {
                let r = fizz_reaction(s.to_fizz[0]);
                RingState {
                    to_fizz: s.to_fizz.drop_first(),
                    to_buzz: deliver(s.to_buzz, r.forward),
                    fizz_done: r.done,
                    output: s.output + r.text,
                    ..s
                }
            },
            Stage::Buzz => {
                let r = buzz_reaction(s.to_buzz[0]);
                RingState {
                    to_buzz: s.to_buzz.drop_first(),
                    to_counter: deliver(s.to_counter, r.forward),
                    buzz_done: r.done,
                    output: s.output + r.text,
                    ..s
                }
            },
        }
    }
}

/// The ring after the stages have tried to move in the order `schedule`.
pub open spec fn reach(schedule: Seq<Stage>) -> RingState
    decreases schedule.len(),
{
    if schedule.len() == 0 {
        initial()
    } else {
        next(reach(schedule.drop_last()), schedule.last())
    }
}

/// All three stages have ended.
pub open spec fn finished(s: RingState) -> bool {
    s.counter_done && s.fizz_done && s.buzz_done
}

/// How many tokens are on the ring.
pub open spec fn tokens_in_flight(s: RingState) -> nat {
    s.to_fizz.len() + s.to_buzz.len() + s.to_counter.len()
}

/// The queues hold just `token`, on its way to `at`.
pub open spec fn token_at(s: RingState, token: u32, at: Stage) -> bool {
    &&& s.to_fizz == if at == Stage::Fizz {
        seq![token]
    } else {
        Seq::<u32>::empty()
    }
    &&& s.to_buzz == if at == Stage::Buzz {
        seq![token]
    } else {
        Seq::<u32>::empty()
    }
    &&& s.to_counter == if at == Stage::Counter {
        seq![token]
    } else {
        Seq::<u32>::empty()
    }
}

/// No token is on the ring.
pub open spec fn no_token(s: RingState) -> bool {
    &&& s.to_fizz == Seq::<u32>::empty()
    &&& s.to_buzz == Seq::<u32>::empty()
    &&& s.to_counter == Seq::<u32>::empty()
}

/// The number `i` is on its way round: the lines before it are written, and
/// of its own line what the stages behind the token write.
pub open spec fn number_on_ring(s: RingState, i: nat) -> bool {
    &&& 1 <= i <= LAST
    &&& s.upcoming == i + 1
    &&& !s.counter_done && !s.fizz_done && !s.buzz_done
    &&& {
        ||| token_at(s, i as u32, Stage::Fizz) && s.output == transcript((i - 1) as nat)
            + number_text(i)
        ||| token_at(s, i as u32, Stage::Buzz) && s.output == transcript((i - 1) as nat)
            + number_text(i) + fizz_text(i)
        ||| token_at(s, i as u32, Stage::Counter) && s.output == transcript((i - 1) as nat)
            + line(i)
    }
}

/// All lines are written, and [`STOP`] is on its way round or has arrived.
pub open spec fn stopping(s: RingState) -> bool {
    &&& s.upcoming == LAST + 1
    &&& s.counter_done
    &&& s.output == transcript(LAST as nat)
    &&& {
        ||| token_at(s, STOP, Stage::Fizz) && !s.fizz_done && !s.buzz_done
        ||| token_at(s, STOP, Stage::Buzz) && s.fizz_done && !s.buzz_done
        ||| no_token(s) && s.fizz_done && s.buzz_done
    }
}

/// What holds of the ring at every moment.
pub open spec fn inv(s: RingState) -> bool {
    ||| s == initial()
    ||| number_on_ring(s, (s.upcoming - 1) as nat)
    ||| stopping(s)
}

/// The words of the stages, one after the other, make up the line.
pub proof fn lemma_line_parts(i: nat)
    ensures
        number_text(i) + fizz_text(i) + buzz_text(i) == line(i),
{
    assert(number_text(i) + fizz_text(i) + buzz_text(i) =~= line(i));
}

/// A step keeps what holds at every moment.
pub proof fn lemma_step_keeps_inv(s: RingState, stage: Stage)
    requires
        inv(s),
    ensures
        inv(next(s, stage)),
{
    let t = next(s, stage);
    let i = (s.upcoming - 1) as nat;
    if !enabled(s, stage) {
    } else if s == initial() {
        assert(stage == Stage::Counter);
        assert(t.to_fizz =~= seq![1u32]);
        assert(t.output =~= transcript(0) + number_text(1));
        assert(number_on_ring(t, 1));
    } else if number_on_ring(s, i) {
        match stage {
            Stage::Fizz => {
                assert(token_at(s, i as u32, Stage::Fizz));
                assert(t.to_fizz =~= Seq::<u32>::empty());
                assert(t.to_buzz =~= seq![i as u32]);
                assert(number_on_ring(t, i));
            },
            Stage::Buzz => {
                assert(token_at(s, i as u32, Stage::Buzz));
                assert(t.to_buzz =~= Seq::<u32>::empty());
                assert(t.to_counter =~= seq![i as u32]);
                lemma_line_parts(i);
                let before = transcript((i - 1) as nat);
                assert(before + number_text(i) + fizz_text(i) + buzz_text(i) =~= before + (
                number_text(i) + fizz_text(i) + buzz_text(i)));
                assert(t.output == before + line(i));
                assert(number_on_ring(t, i));
            },
            Stage::Counter => {
                assert(token_at(s, i as u32, Stage::Counter));
                assert(t.to_counter =~= Seq::<u32>::empty());
                assert(transcript(i) == transcript((i - 1) as nat) + line(i) + line_end());
                if i < LAST {
                    assert(t.to_fizz =~= seq![(i + 1) as u32]);
                    assert(t.output =~= transcript(i) + number_text(i + 1));
                    assert(number_on_ring(t, i + 1));
                } else {
                    assert(t.to_fizz =~= seq![STOP]);
                    assert(t.output =~= transcript(LAST as nat));
                    assert(stopping(t));
                }
            },
        }
    } else {
        match stage {
            Stage::Fizz => {
                assert(t.to_fizz =~= Seq::<u32>::empty());
                assert(t.to_buzz =~= seq![STOP]);
                assert(t.output =~= s.output);
                assert(stopping(t));
            },
            Stage::Buzz => {
                assert(t.to_buzz =~= Seq::<u32>::empty());
                assert(t.to_counter =~= Seq::<u32>::empty());
                assert(t.output =~= s.output);
                assert(stopping(t));
            },
            Stage::Counter => {},
        }
    }
}

proof fn lemma_head_is_prefix(head: Seq<char>, tail: Seq<char>, whole: Seq<char>)
    requires
        whole =~= head + tail,
    ensures
        head.is_prefix_of(whole),
{
    assert(head =~= whole.subrange(0, head.len() as int));
}

proof fn lemma_prefix_of_prefix(a: Seq<char>, b: Seq<char>, c: Seq<char>)
    requires
        a.is_prefix_of(b),
        b.is_prefix_of(c),
    ensures
        a.is_prefix_of(c),
{
    assert(a =~= c.subrange(0, a.len() as int)) by {
        assert forall|k: int| 0 <= k < a.len() implies a[k] == c[k] by {
            assert(a[k] == b.subrange(0, a.len() as int)[k]);
            assert(b[k] == c.subrange(0, b.len() as int)[k]);
        }
    }
}

/// The lines for 1 to `i` are the start of the lines for 1 to `n`.
proof fn lemma_transcript_grows(i: nat, n: nat)
    requires
        i <= n,
    ensures
        transcript(i).is_prefix_of(transcript(n)),
    decreases n - i,
{
    if i < n {
        lemma_transcript_grows(i, (n - 1) as nat);
        let before = transcript((n - 1) as nat);
        lemma_head_is_prefix(before, line(n) + line_end(), transcript(n));
        lemma_prefix_of_prefix(transcript(i), before, transcript(n));
    } else {
        lemma_head_is_prefix(transcript(n), Seq::<char>::empty(), transcript(n));
    }
}

/// At every moment, what has been written is a start of the lines for 1 to
/// [`LAST`].
pub proof fn lemma_written_in_order(s: RingState)
    requires
        inv(s),
    ensures
        s.output.is_prefix_of(transcript(LAST as nat)),
{
    let whole = transcript(LAST as nat);
    let i = (s.upcoming - 1) as nat;
    if s == initial() {
        lemma_head_is_prefix(s.output, whole, whole);
    } else if number_on_ring(s, i) {
        let before = transcript((i - 1) as nat);
        lemma_line_parts(i);
        lemma_transcript_grows(i, LAST as nat);
        assert(transcript(i) == before + line(i) + line_end());
        assert(transcript(i) =~= before + number_text(i) + (fizz_text(i) + buzz_text(i)
            + line_end()));
        assert(transcript(i) =~= before + number_text(i) + fizz_text(i) + (buzz_text(i)
            + line_end()));
        if token_at(s, i as u32, Stage::Fizz) {
            assert(s.to_fizz.len() == 1);
            assert(s.output == before + number_text(i));
            lemma_head_is_prefix(
                s.output,
                fizz_text(i) + buzz_text(i) + line_end(),
                transcript(i),
            );
        } else if token_at(s, i as u32, Stage::Buzz) {
            assert(s.to_buzz.len() == 1);
            assert(s.output == before + number_text(i) + fizz_text(i));
            lemma_head_is_prefix(s.output, buzz_text(i) + line_end(), transcript(i));
        } else {
            lemma_head_is_prefix(s.output, line_end(), transcript(i));
        }
        lemma_prefix_of_prefix(s.output, transcript(i), whole);
    } else {
        lemma_head_is_prefix(s.output, Seq::<char>::empty(), whole);
    }
}

/// However the steps of the three stages follow one another: at most one
/// token is on the ring; what has been written is a start of the lines for
/// 1 to [`LAST`]; until all stages have ended exactly one of them can move,
/// so none waits for ever; and once all have ended, the lines for 1 to
/// [`LAST`] have been written, each once and in order, and nothing else.
pub proof fn lemma_any_schedule(schedule: Seq<Stage>)
    ensures
        inv(reach(schedule)),
        tokens_in_flight(reach(schedule)) <= 1,
        reach(schedule).output.is_prefix_of(transcript(LAST as nat)),
        finished(reach(schedule)) ==> reach(schedule).output == transcript(LAST as nat),
        !finished(reach(schedule)) ==> exists|stage: Stage| #[trigger]
            enabled(reach(schedule), stage) && forall|other: Stage| #[trigger]
                enabled(reach(schedule), other) ==> other == stage,
    decreases schedule.len(),
{
    if schedule.len() > 0 {
        lemma_any_schedule(schedule.drop_last());
        lemma_step_keeps_inv(reach(schedule.drop_last()), schedule.last());
    }
    lemma_inv_facts(reach(schedule));
    lemma_written_in_order(reach(schedule));
}

/// Two rings that have both ended have written the same text, whatever the
/// order of their steps was.
pub proof fn lemma_runs_agree(one: Seq<Stage>, other: Seq<Stage>)
    requires
        finished(reach(one)),
        finished(reach(other)),
    ensures
        reach(one).output == reach(other).output,
{
    lemma_any_schedule(one);
    lemma_any_schedule(other);
}

/// What follows from [`inv`] at one moment.
pub proof fn lemma_inv_facts(s: RingState)
    requires
        inv(s),
    ensures
        tokens_in_flight(s) <= 1,
        finished(s) ==> s.output == transcript(LAST as nat),
        !finished(s) ==> exists|stage: Stage| #[trigger]
            enabled(s, stage) && forall|other: Stage| #[trigger]
                enabled(s, other) ==> other == stage,
{
    let i = (s.upcoming - 1) as nat;
    if s == initial() {
        assert(enabled(s, Stage::Counter));
    } else if number_on_ring(s, i) {
        if token_at(s, i as u32, Stage::Fizz) {
            assert(enabled(s, Stage::Fizz));
        } else if token_at(s, i as u32, Stage::Buzz) {
            assert(enabled(s, Stage::Buzz));
        } else {
            assert(enabled(s, Stage::Counter));
        }
    } else {
        if token_at(s, STOP, Stage::Fizz) {
            assert(enabled(s, Stage::Fizz));
        } else if token_at(s, STOP, Stage::Buzz) {
            assert(enabled(s, Stage::Buzz));
        }
    }
}

/// How many moves are still to be made before all stages have ended.
pub open spec fn steps_left(s: RingState) -> nat {
    if finished(s) {
        0
    } else if s.counter_done {
        if s.to_fizz.len() > 0 {
            2
        } else {
            1
        }
    } else if s.upcoming == 1 {
        3 * LAST as nat + 3
    } else {
        let rounds = (LAST + 1 - s.upcoming) as nat;
        if s.to_fizz.len() > 0 {
            3 * rounds + 5
        } else if s.to_buzz.len() > 0 {
            3 * rounds + 4
        } else {
            3 * rounds + 3
        }
    }
}

/// Every move brings the end one step nearer, so the ring ends after
/// `3 * LAST + 3` moves: one to start, three for each number and two to
/// stop.
pub proof fn lemma_step_progress(s: RingState, stage: Stage)
    requires
        inv(s),
        enabled(s, stage),
    ensures
        steps_left(next(s, stage)) + 1 == steps_left(s),
        steps_left(initial()) == 3 * LAST + 3,
{
    let t = next(s, stage);
    let i = (s.upcoming - 1) as nat;
    lemma_step_keeps_inv(s, stage);
    if s == initial() {
        assert(t.to_fizz =~= seq![1u32]);
    } else if number_on_ring(s, i) {
        match stage {
            Stage::Fizz => {
                assert(t.to_fizz =~= Seq::<u32>::empty());
                assert(t.to_buzz =~= seq![i as u32]);
            },
            Stage::Buzz => {
                assert(t.to_buzz =~= Seq::<u32>::empty());
                assert(t.to_counter =~= seq![i as u32]);
            },
            Stage::Counter => {
                assert(t.to_counter =~= Seq::<u32>::empty());
                if i < LAST {
                    assert(t.to_fizz =~= seq![(i + 1) as u32]);
                } else {
                    assert(t.to_fizz =~= seq![STOP]);
                }
            },
        }
    } else {
        match stage {
            Stage::Fizz => {
                assert(t.to_fizz =~= Seq::<u32>::empty());
                assert(t.to_buzz =~= seq![STOP]);
            },
            Stage::Buzz => {
                assert(t.to_buzz =~= Seq::<u32>::empty());
            },
            Stage::Counter => {},
        }
    }
}

/// The ring as a value that can be stepped.
pub struct Ring {
    counter: Counter,
    to_fizz: Vec<u32>,
    to_buzz: Vec<u32>,
    to_counter: Vec<u32>,
    counter_done: bool,
    fizz_done: bool,
    buzz_done: bool,
    output: String,
}

impl View for Ring {
    type V = RingState;

    closed spec fn view(&self) -> RingState {
        RingState {
            upcoming: self.counter.upcoming(),
            to_fizz: self.to_fizz@,
            to_buzz: self.to_buzz@,
            to_counter: self.to_counter@,
            counter_done: self.counter_done,
            fizz_done: self.fizz_done,
            buzz_done: self.buzz_done,
            output: self.output@,
        }
    }
}

impl Ring {
    /// A ring on which no stage has moved yet.
    pub fn new() -> (ring: Ring)
        ensures
            ring@ == initial(),
    {
        Ring {
            counter: Counter::new(),
            to_fizz: Vec::new(),
            to_buzz: Vec::new(),
            to_counter: Vec::new(),
            counter_done: false,
            fizz_done: false,
            buzz_done: false,
            output: String::new(),
        }
    }

    /// Lets `stage` try to move, and says whether it could.
    pub fn step(&mut self, stage: Stage) -> (moved: bool)
        ensures
            final(self)@ == next(old(self)@, stage),
            moved == enabled(old(self)@, stage),
            inv(old(self)@) ==> inv(final(self)@),
    {
        proof {
            if inv(self@) {
                lemma_step_keeps_inv(self@, stage);
            }
        }
        match stage {
            Stage::Counter => {
                if self.counter_done {
                    return false;
                }
                if self.counter.needs_token() {
                    if self.to_counter.len() == 0 {
                        return false;
                    }
                    self.to_counter.remove(0);
                    assert(self.to_counter@ =~= old(self).to_counter@.drop_first());
                }
                let r = self.counter.advance();
                self.output.append(r.text.as_str());
                if let Some(token) = r.forward {
                    self.to_fizz.push(token);
                }
                self.counter_done = r.done;
                true
            },
            Stage::Fizz => {
                if self.fizz_done || self.to_fizz.len() == 0 {
                    return false;
                }
                let token = self.to_fizz.remove(0);
                assert(self.to_fizz@ =~= old(self).to_fizz@.drop_first());
                let r = fizz_handler(token);
                self.output.append(r.text.as_str());
                if let Some(token) = r.forward {
                    self.to_buzz.push(token);
                }
                self.fizz_done = r.done;
                true
            },
            Stage::Buzz => {
                if self.buzz_done || self.to_buzz.len() == 0 {
                    return false;
                }
                let token = self.to_buzz.remove(0);
                assert(self.to_buzz@ =~= old(self).to_buzz@.drop_first());
                let r = buzz_handler(token);
                self.output.append(r.text.as_str());
                if let Some(token) = r.forward {
                    self.to_counter.push(token);
                }
                self.buzz_done = r.done;
                true
            },
        }
    }

    /// The stage that can move, if there is one: the first in the order in
    /// which the token visits them.
    pub fn ready(&self) -> (stage: Option<Stage>)
        ensures
            stage == first_enabled(self@),
            stage matches Some(st) ==> enabled(self@, st),
            stage is None ==> forall|st: Stage| !enabled(self@, st),
    {
        if !self.counter_done && (!self.counter.needs_token() || self.to_counter.len() > 0) {
            Some(Stage::Counter)
        } else if !self.fizz_done && self.to_fizz.len() > 0 {
            Some(Stage::Fizz)
        } else if !self.buzz_done && self.to_buzz.len() > 0 {
            Some(Stage::Buzz)
        } else {
            None
        }
    }

    /// Whether all three stages have ended.
    pub fn is_finished(&self) -> (b: bool)
        ensures
            b == finished(self@),
    {
        self.counter_done && self.fizz_done && self.buzz_done
    }

    /// How many tokens are on the ring.
    pub fn in_flight(&self) -> (n: usize)
        requires
            inv(self@),
        ensures
            n == tokens_in_flight(self@),
    {
        proof {
            lemma_inv_facts(self@);
        }
        self.to_fizz.len() + self.to_buzz.len() + self.to_counter.len()
    }

    /// All that has been written so far.
    pub fn output(&self) -> (text: &str)
        ensures
            text@ == self@.output,
    {
        self.output.as_str()
    }

    /// Starts a ring and lets the stages try to move in the order
    /// `schedule`.
    pub fn play(schedule: &[Stage]) -> (ring: Ring)
        ensures
            ring@ == reach(schedule@),
    {
        let mut ring = Ring::new();
        let mut k: usize = 0;
        while k < schedule.len()
            invariant
                k <= schedule@.len(),
                ring@ == reach(schedule@.take(k as int)),
            decreases schedule@.len() - k,
        {
            ring.step(schedule[k]);
            proof {
                let done = schedule@.take(k + 1);
                assert(done.drop_last() =~= schedule@.take(k as int));
                assert(done.last() == schedule@[k as int]);
            }
            k = k + 1;
        }
        assert(schedule@.take(k as int) =~= schedule@);
        ring
    }
}

/// Runs the ring to its end, moving whichever stage can move, and returns
/// the text written: the lines for 1 to [`LAST`], which are [`LAST`] lines.
pub fn run() -> (text: String)
    ensures
        text@ == transcript(LAST as nat),
        line_ends_in(text@) == LAST,
{
    proof {
        lemma_transcript_lines(LAST as nat);
    }
    let mut ring = Ring::new();
    loop
        invariant
            inv(ring@),
        ensures
            inv(ring@),
            forall|st: Stage| !enabled(ring@, st),
        decreases steps_left(ring@),
    {
        match ring.ready() {
            Some(stage) => {
                proof {
                    lemma_step_progress(ring@, stage);
                }
                ring.step(stage);
            },
            None => {
                break ;
            },
        }
    }
    proof {
        lemma_inv_facts(ring@);
    }
    String::from_str(ring.output())
}

} // verus!
