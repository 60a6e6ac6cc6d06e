//! Three tasks, each on a unit of its own, made to run one after the other
//! by two signals that are each sent once and received once.
//!
//! The unit of the first task runs it and sends the first signal. The unit
//! of the second waits for that signal, runs its task and sends the second
//! signal. The unit of the third waits for the second signal and runs its
//! task. [`next_op`] gives each unit its operations one by one; [`Runner`]
//! lets the units take their steps in any order, and
//! [`lemma_any_schedule`] shows that the tasks run in the same order
//! whichever that is.
//!
//! A unit that stops before it has sent its signal leaves the unit that
//! waits for it waiting for good: see [`lemma_waits_for_signal`]. Nothing
//! here recovers from that.

use vstd::prelude::*;

verus! {

/// The three tasks. Each names its unit too.
#[derive(Debug, Copy, Clone, PartialEq, Eq, Structural)]
pub enum Task {
    First,
    Second,
    Third,
}

/// The two signals.
#[derive(Debug, Copy, Clone, PartialEq, Eq, Structural)]
pub enum Signal {
    /// The first task has run.
    AfterFirst,
    /// The second task has run.
    AfterSecond,
}

/// One operation of a unit.
#[derive(Debug, Copy, Clone, PartialEq, Eq, Structural)]
pub enum Op {
    /// Wait until the signal has been sent, and take it.
    Await(Signal),
    /// Run the task.
    Run(Task),
    /// Send the signal.
    Notify(Signal),
}

/// A signal's channel: nothing sent yet, sent and not yet taken, or taken.
#[derive(Debug, Copy, Clone, PartialEq, Eq, Structural)]
pub enum Slot {
    Empty,
    Sent,
    Taken,
}

/// The operation that the unit of `task` makes after `done` others, if one
/// is left.
pub open spec fn op_at(task: Task, done: nat) -> Option<Op> {
    match task {
        Task::First => if done == 0 {
            Some(Op::Run(Task::First))
        } else if done == 1 {
            Some(Op::Notify(Signal::AfterFirst))
        } else {
            None
        },
        Task::Second => if done == 0 {
            Some(Op::Await(Signal::AfterFirst))
        } else if done == 1 {
            Some(Op::Run(Task::Second))
        } else if done == 2 {
            Some(Op::Notify(Signal::AfterSecond))
        } else {
            None
        },
        Task::Third => if done == 0 {
            Some(Op::Await(Signal::AfterSecond))
        } else if done == 1 {
            Some(Op::Run(Task::Third))
        } else {
            None
        },
    }
}

/// The word that `task` writes.
pub open spec fn label_text(task: Task) -> Seq<char> {
    match task {
        Task::First => "first"@,
        Task::Second => "second"@,
        Task::Third => "third"@,
    }
}

/// The order in which the tasks are to run.
pub open spec fn order() -> Seq<Task> {
    seq![Task::First, Task::Second, Task::Third]
}

impl Task {
    /// The word that the task writes.
    pub fn label(&self) -> (word: &'static str)
        ensures
            word@ == label_text(*self),
    {
        match self {
            Task::First => "first",
            Task::Second => "second",
            Task::Third => "third",
        }
    }
}

/// The operation that the unit of `task` makes after `done` others, if one
/// is left.
pub fn next_op(task: Task, done: usize) -> (op: Option<Op>)
    ensures
        op == op_at(task, done as nat),
{
    match task {
        Task::First => if done == 0 {
            Some(Op::Run(Task::First))
        } else if done == 1 {
            Some(Op::Notify(Signal::AfterFirst))
        } else {
            None
        },
        Task::Second => if done == 0 {
            Some(Op::Await(Signal::AfterFirst))
        } else if done == 1 {
            Some(Op::Run(Task::Second))
        } else if done == 2 {
            Some(Op::Notify(Signal::AfterSecond))
        } else {
            None
        },
        Task::Third => if done == 0 {
            Some(Op::Await(Signal::AfterSecond))
        } else if done == 1 {
            Some(Op::Run(Task::Third))
        } else {
            None
        },
    }
}

/// The three units and the two signals at one moment.
pub struct RunnerState {
    /// How many operations the unit of the first task has made.
    pub first_done: nat,
    /// How many operations the unit of the second task has made.
    pub second_done: nat,
    /// How many operations the unit of the third task has made.
    pub third_done: nat,
    pub after_first: Slot,
    pub after_second: Slot,
    /// The tasks that have run, in the order in which they ran.
    pub log: Seq<Task>,
}

impl RunnerState {
    /// How many operations the unit of `task` has made.
    pub open spec fn done(self, task: Task) -> nat {
        match task {
            Task::First => self.first_done,
            Task::Second => self.second_done,
            Task::Third => self.third_done,
        }
    }

    /// The channel of `signal`.
    pub open spec fn slot(self, signal: Signal) -> Slot {
        match signal {
            Signal::AfterFirst => self.after_first,
            Signal::AfterSecond => self.after_second,
        }
    }

    /// This state, with one more operation made by the unit of `task`.
    pub open spec fn advanced(self, task: Task) -> RunnerState {
        match task {
            Task::First => RunnerState { first_done: self.first_done + 1, ..self },
            Task::Second => RunnerState { second_done: self.second_done + 1, ..self },
            Task::Third => RunnerState { third_done: self.third_done + 1, ..self },
        }
    }

    /// This state, with the channel of `signal` set to `slot`.
    pub open spec fn with_slot(self, signal: Signal, slot: Slot) -> RunnerState {
        match signal {
            Signal::AfterFirst => RunnerState { after_first: slot, ..self },
            Signal::AfterSecond => RunnerState { after_second: slot, ..self },
        }
    }
}

/// Before any unit has moved.
pub open spec fn initial() -> RunnerState {
    RunnerState {
        first_done: 0,
        second_done: 0,
        third_done: 0,
        after_first: Slot::Empty,
        after_second: Slot::Empty,
        log: Seq::empty(),
    }
}

/// Whether the unit of `task` can move: it has an operation left, and if
/// that is to wait for a signal, the signal is there.
pub open spec fn enabled(s: RunnerState, task: Task) -> bool {
    match op_at(task, s.done(task)) {
        None => false,
        Some(Op::Await(signal)) => s.slot(signal) == Slot::Sent,
        Some(_) => true,
    }
}

/// The first unit that can move, in the order of the tasks, if any can.
pub open spec fn first_enabled(s: RunnerState) -> Option<Task> {
    if enabled(s, Task::First) {
        Some(Task::First)
    } else if enabled(s, Task::Second) {
        Some(Task::Second)
    } else if enabled(s, Task::Third) {
        Some(Task::Third)
    } else {
        None
    }
}

/// The state after the unit of `task` has tried to move.
pub open spec fn next(s: RunnerState, task: Task) -> RunnerState {
    if !enabled(s, task) {
        s
    } else {
        match op_at(task, s.done(task)) {
            Some(Op::Await(signal)) => s.with_slot(signal, Slot::Taken).advanced(task),
            Some(Op::Run(ran)) => RunnerState { log: s.log.push(ran), ..s }.advanced(task),
            Some(Op::Notify(signal)) => s.with_slot(signal, Slot::Sent).advanced(task),
            None => s,
        }
    }
}

/// The state after the units have tried to move in the order `schedule`.
pub open spec fn reach(schedule: Seq<Task>) -> RunnerState
    decreases schedule.len(),
{
    if schedule.len() == 0 {
        initial()
    } else {
        next(reach(schedule.drop_last()), schedule.last())
    }
}

/// Every unit has made all its operations.
pub open spec fn finished(s: RunnerState) -> bool {
    s.first_done == 2 && s.second_done == 3 && s.third_done == 2
}

/// How many tasks have run, going by how far each unit is.
pub open spec fn tasks_run(s: RunnerState) -> nat {
    let first: nat = if s.first_done >= 1 {
        1
    } else {
        0
    };
    let second: nat = if s.second_done >= 2 {
        1
    } else {
        0
    };
    let third: nat = if s.third_done >= 2 {
        1
    } else {
        0
    };
    first + second + third
}

/// What holds at every moment: each signal is sent by the unit before and
/// taken by the unit after, once, and the tasks that have run are the first
/// ones of [`order`].
pub open spec fn inv(s: RunnerState) -> bool {
    &&& s.first_done <= 2
    &&& s.second_done <= 3
    &&& s.third_done <= 2
    &&& s.after_first == if s.first_done < 2 {
        Slot::Empty
    } else if s.second_done == 0 {
        Slot::Sent
    } else {
        Slot::Taken
    }
    &&& s.second_done >= 1 ==> s.first_done == 2
    &&& s.after_second == if s.second_done < 3 {
        Slot::Empty
    } else if s.third_done == 0 {
        Slot::Sent
    } else {
        Slot::Taken
    }
    &&& s.third_done >= 1 ==> s.second_done == 3
    &&& s.log == order().take(tasks_run(s) as int)
}

/// How many operations are still to be made.
pub open spec fn steps_left(s: RunnerState) -> int {
    7 - (s.first_done + s.second_done + s.third_done)
}

/// A step keeps what holds at every moment, and a unit that moves brings
/// the end one step nearer.
pub proof fn lemma_step_keeps_inv(s: RunnerState, task: Task)
    requires
        inv(s),
    ensures
        inv(next(s, task)),
        enabled(s, task) ==> steps_left(next(s, task)) + 1 == steps_left(s),
{
    let t = next(s, task);
    assert(order().take(0) =~= Seq::<Task>::empty());
    assert(order().take(1) =~= seq![Task::First]);
    assert(order().take(2) =~= seq![Task::First, Task::Second]);
    assert(order().take(3) =~= order());
    assert(order().take(0).push(Task::First) =~= order().take(1));
    assert(order().take(1).push(Task::Second) =~= order().take(2));
    assert(order().take(2).push(Task::Third) =~= order().take(3));
}

/// What follows from [`inv`] at one moment.
pub proof fn lemma_inv_facts(s: RunnerState)
    requires
        inv(s),
    ensures
        s.log.is_prefix_of(order()),
        finished(s) ==> s.log == order(),
        !finished(s) ==> exists|task: Task| #[trigger]
            enabled(s, task) && forall|other: Task| #[trigger]
                enabled(s, other) ==> other == task,
        0 <= steps_left(s) <= 7,
        finished(s) <==> steps_left(s) == 0,
{
    assert(order().take(3) =~= order());
    if !finished(s) {
        if s.first_done < 2 {
            assert(enabled(s, Task::First));
        } else if s.second_done < 3 {
            assert(enabled(s, Task::Second));
        } else {
            assert(enabled(s, Task::Third));
        }
    }
}

/// However the steps of the three units follow one another: the tasks that
/// have run are the first ones of first, second, third, in that order;
/// until every unit is through exactly one unit can move, so none waits for
/// ever; and once every unit is through, all three tasks have run, each
/// once.
pub proof fn lemma_any_schedule(schedule: Seq<Task>)
    ensures
        inv(reach(schedule)),
        reach(schedule).log.is_prefix_of(order()),
        finished(reach(schedule)) ==> reach(schedule).log == order(),
        !finished(reach(schedule)) ==> exists|task: Task| #[trigger]
            enabled(reach(schedule), task) && forall|other: Task| #[trigger]
                enabled(reach(schedule), other) ==> other == task,
    decreases schedule.len(),
{
    if schedule.len() > 0 {
        lemma_any_schedule(schedule.drop_last());
        lemma_step_keeps_inv(reach(schedule.drop_last()), schedule.last());
    } else {
        assert(order().take(0) =~= Seq::<Task>::empty());
    }
    lemma_inv_facts(reach(schedule));
}

/// Two complete runs have run the same tasks in the same order, whatever
/// the order of their steps was.
pub proof fn lemma_runs_agree(one: Seq<Task>, other: Seq<Task>)
    requires
        finished(reach(one)),
        finished(reach(other)),
    ensures
        reach(one).log == reach(other).log,
{
    lemma_any_schedule(one);
    lemma_any_schedule(other);
}

/// A unit that waits for a signal cannot move before the unit that sends
/// the signal has sent it. So if that unit stops early, the one that waits
/// never moves, and neither does any unit behind it.
pub proof fn lemma_waits_for_signal(s: RunnerState)
    requires
        inv(s),
    ensures
        s.first_done < 2 ==> !enabled(s, Task::Second) && !enabled(s, Task::Third),
        s.second_done < 3 ==> !enabled(s, Task::Third),
{
}

/// The three units and the two signals as a value that can be stepped.
pub struct Runner {
    first_done: usize,
    second_done: usize,
    third_done: usize,
    after_first: Slot,
    after_second: Slot,
    log: Vec<Task>,
}

impl View for Runner {
    type V = RunnerState;

    closed spec fn view(&self) -> RunnerState {
        RunnerState {
            first_done: self.first_done as nat,
            second_done: self.second_done as nat,
            third_done: self.third_done as nat,
            after_first: self.after_first,
            after_second: self.after_second,
            log: self.log@,
        }
    }
}

impl Runner {
    /// Three units that have not moved yet.
    pub fn new() -> (runner: Runner)
        ensures
            runner@ == initial(),
    {
        Runner {
            first_done: 0,
            second_done: 0,
            third_done: 0,
            after_first: Slot::Empty,
            after_second: Slot::Empty,
            log: Vec::new(),
        }
    }

    fn done_of(&self, task: Task) -> (done: usize)
        ensures
            done == self@.done(task),
    {
        match task {
            Task::First => self.first_done,
            Task::Second => self.second_done,
            Task::Third => self.third_done,
        }
    }

    fn slot_of(&self, signal: Signal) -> (slot: Slot)
        ensures
            slot == self@.slot(signal),
    {
        match signal {
            Signal::AfterFirst => self.after_first,
            Signal::AfterSecond => self.after_second,
        }
    }

    fn set_slot(&mut self, signal: Signal, slot: Slot)
        ensures
            final(self)@ == old(self)@.with_slot(signal, slot),
    {
        match signal {
            Signal::AfterFirst => {
                self.after_first = slot;
            },
            Signal::AfterSecond => {
                self.after_second = slot;
            },
        }
    }

    fn advance(&mut self, task: Task)
        requires
            old(self)@.done(task) < 3,
        ensures
            final(self)@ == old(self)@.advanced(task),
    {
        match task {
            Task::First => {
                self.first_done = self.first_done + 1;
            },
            Task::Second => {
                self.second_done = self.second_done + 1;
            },
            Task::Third => {
                self.third_done = self.third_done + 1;
            },
        }
    }

    /// Lets the unit of `task` try to move, and says whether it could.
    pub fn step(&mut self, task: Task) -> (moved: bool)
        ensures
            final(self)@ == next(old(self)@, task),
            moved == enabled(old(self)@, task),
            inv(old(self)@) ==> inv(final(self)@),
    {
        proof {
            if inv(self@) {
                lemma_step_keeps_inv(self@, task);
            }
        }
        match next_op(task, self.done_of(task)) {
            None => false,
            Some(Op::Await(signal)) => {
                match self.slot_of(signal) {
                    Slot::Sent => {
                        self.set_slot(signal, Slot::Taken);
                        self.advance(task);
                        true
                    },
                    _ => false,
                }
            },
            Some(Op::Run(ran)) => {
                self.log.push(ran);
                self.advance(task);
                true
            },
            Some(Op::Notify(signal)) => {
                self.set_slot(signal, Slot::Sent);
                self.advance(task);
                true
            },
        }
    }

    fn can_move(&self, task: Task) -> (b: bool)
        ensures
            b == enabled(self@, task),
    {
        match next_op(task, self.done_of(task)) {
            None => false,
            Some(Op::Await(signal)) => {
                match self.slot_of(signal) {
                    Slot::Sent => true,
                    _ => false,
                }
            },
            Some(_) => true,
        }
    }

    /// The unit that can move, if there is one: the first in the order of
    /// the tasks.
    pub fn ready(&self) -> (task: Option<Task>)
        ensures
            task == first_enabled(self@),
            task matches Some(t) ==> enabled(self@, t),
            task is None ==> forall|t: Task| !enabled(self@, t),
    {
        if self.can_move(Task::First) {
            Some(Task::First)
        } else if self.can_move(Task::Second) {
            Some(Task::Second)
        } else if self.can_move(Task::Third) {
            Some(Task::Third)
        } else {
            None
        }
    }

    /// Whether every unit has made all its operations.
    pub fn is_finished(&self) -> (b: bool)
        ensures
            b == finished(self@),
    {
        self.first_done == 2 && self.second_done == 3 && self.third_done == 2
    }

    /// The tasks that have run so far, in the order in which they ran.
    pub fn log(&self) -> (log: &Vec<Task>)
        ensures
            log@ == self@.log,
    {
        &self.log
    }

    /// Starts three units and lets them try to move in the order
    /// `schedule`.
    pub fn play(schedule: &[Task]) -> (runner: Runner)
        ensures
            runner@ == reach(schedule@),
    {
        let mut runner = Runner::new();
        let mut k: usize = 0;
        while k < schedule.len()
            invariant
                k <= schedule@.len(),
                runner@ == reach(schedule@.take(k as int)),
            decreases schedule@.len() - k,
        {
            runner.step(schedule[k]);
            proof {
                let done = schedule@.take(k + 1);
                assert(done.drop_last() =~= schedule@.take(k as int));
                assert(done.last() == schedule@[k as int]);
            }
            k = k + 1;
        }
        assert(schedule@.take(k as int) =~= schedule@);
        runner
    }
}

/// Runs the three units to their end, moving whichever can move, and
/// returns the tasks in the order in which they ran: first, second, third.
pub fn run() -> (log: Vec<Task>)
    ensures
        log@ == order(),
{
    let mut runner = Runner::new();
    assert(order().take(0) =~= Seq::<Task>::empty());
    loop
        invariant
            inv(runner@),
        ensures
            inv(runner@),
            forall|t: Task| !enabled(runner@, t),
        decreases steps_left(runner@),
    {
        match runner.ready() {
            Some(task) => {
                proof {
                    lemma_step_keeps_inv(runner@, task);
                    lemma_inv_facts(next(runner@, task));
                }
                runner.step(task);
            },
            None => {
                break ;
            },
        }
    }
    proof {
        lemma_inv_facts(runner@);
    }
    runner.log
}

} // verus!
