//! Spelling non-negative integers in English words.
//!
//! A number is split into groups of three decimal digits. Each non-zero group
//! above the units is spelled, followed by the name of its scale; the units
//! group comes last. The words are lower-case and one blank apart, and no two
//! numbers are spelled alike.

use vstd::prelude::*;

verus! {

/// The largest number that [`english_int`] spells: ten trillion.
pub const MAX: i64 = 10000000000000;

/// The word for a single digit.
pub open spec fn digit_word(d: int) -> Seq<char> {
    if d == 0 {
        "zero"@
    } else if d == 1 {
        "one"@
    } else if d == 2 {
        "two"@
    } else if d == 3 {
        "three"@
    } else if d == 4 {
        "four"@
    } else if d == 5 {
        "five"@
    } else if d == 6 {
        "six"@
    } else if d == 7 {
        "seven"@
    } else if d == 8 {
        "eight"@
    } else {
        "nine"@
    }
}

/// The word for `10 + t`, with `t` a single digit.
pub open spec fn teen_word(t: int) -> Seq<char> {
    if t == 0 {
        "ten"@
    } else if t == 1 {
        "eleven"@
    } else if t == 2 {
        "twelve"@
    } else if t == 3 {
        "thirteen"@
    } else if t == 4 {
        "fourteen"@
    } else if t == 5 {
        "fifteen"@
    } else if t == 6 {
        "sixteen"@
    } else if t == 7 {
        "seventeen"@
    } else if t == 8 {
        "eighteen"@
    } else {
        "nineteen"@
    }
}

/// The word for `10 * t`, with `t` from two to nine.
pub open spec fn tens_word(t: int) -> Seq<char> {
    if t == 2 {
        "twenty"@
    } else if t == 3 {
        "thirty"@
    } else if t == 4 {
        "forty"@
    } else if t == 5 {
        "fifty"@
    } else if t == 6 {
        "sixty"@
    } else if t == 7 {
        "seventy"@
    } else if t == 8 {
        "eighty"@
    } else {
        "ninety"@
    }
}

/// The name of the `k`-th scale: a thousand to the power `k`, for `k` from
/// one to four.
pub open spec fn scale_word(k: int) -> Seq<char> {
    if k == 1 {
        "thousand"@
    } else if k == 2 {
        "million"@
    } else if k == 3 {
        "billion"@
    } else {
        "trillion"@
    }
}

/// A thousand to the power `k`, for `k` from one to four.
pub open spec fn scale_limit(k: int) -> int {
    if k == 1 {
        1000
    } else if k == 2 {
        1000000
    } else if k == 3 {
        1000000000
    } else {
        1000000000000
    }
}

/// One word of a spelling.
pub enum Word {
    /// A digit from zero to nine.
    Digit(int),
    /// Ten plus a digit.
    Teen(int),
    /// Ten times a digit from two to nine.
    Tens(int),
    /// The word "hundred".
    Hundred,
    /// The name of a scale: a thousand to a power from one to four.
    Scale(int),
}

/// `w` is one of the words that a spelling is made of.
pub open spec fn is_word(w: Word) -> bool {
    match w {
        Word::Digit(d) => 0 <= d <= 9,
        Word::Teen(t) => 0 <= t <= 9,
        Word::Tens(t) => 2 <= t <= 9,
        Word::Hundred => true,
        Word::Scale(k) => 1 <= k <= 4,
    }
}

/// The letters of a word.
pub open spec fn word_text(w: Word) -> Seq<char> {
    match w {
        Word::Digit(d) => digit_word(d),
        Word::Teen(t) => teen_word(t),
        Word::Tens(t) => tens_word(t),
        Word::Hundred => "hundred"@,
        Word::Scale(k) => scale_word(k),
    }
}

/// What stands between two words.
pub open spec fn blank() -> Seq<char> {
    " "@
}

/// The words for the hundreds of a group `g`: the digit and "hundred",
/// from one hundred on.
pub open spec fn hundreds_tokens(g: int) -> Seq<Word> {
    if g >= 100 {
        seq![Word::Digit(g / 100), Word::Hundred]
    } else {
        Seq::<Word>::empty()
    }
}

/// The words for a number `t` below one hundred; none for zero.
pub open spec fn tens_tokens(t: int) -> Seq<Word> {
    if t >= 20 {
        if t % 10 > 0 {
            seq![Word::Tens(t / 10), Word::Digit(t % 10)]
        } else {
            seq![Word::Tens(t / 10)]
        }
    } else if t >= 10 {
        seq![Word::Teen(t - 10)]
    } else if t > 0 {
        seq![Word::Digit(t)]
    } else {
        Seq::<Word>::empty()
    }
}

/// The words for a group of three digits: the hundreds, then the rest. A
/// group of zero has no words.
pub open spec fn group_tokens(g: int) -> Seq<Word> {
    hundreds_tokens(g) + tens_tokens(g % 100)
}

/// The group of three digits of `x` that counts the `k`-th scale.
pub open spec fn scale_group(x: int, k: int) -> int {
    (x / scale_limit(k)) % 1000
}

/// What the `k`-th scale contributes to the spelling of `x`: the words of
/// its group and the name of the scale; nothing when the group is zero.
pub open spec fn scale_tokens(x: int, k: int) -> Seq<Word> {
    if scale_group(x, k) == 0 {
        Seq::<Word>::empty()
    } else {
        group_tokens(scale_group(x, k)).push(Word::Scale(k))
    }
}

/// The words of `x`, for `0 <= x <= MAX`: "zero" for zero, and else the
/// trillions, billions, millions and thousands that `x` holds and then what
/// is left below a thousand.
pub open spec fn number_tokens(x: int) -> Seq<Word> {
    if x == 0 {
        seq![Word::Digit(0)]
    } else {
        scale_tokens(x, 4) + scale_tokens(x, 3) + scale_tokens(x, 2) + scale_tokens(x, 1)
            + group_tokens(x % 1000)
    }
}

/// The words one after the other, with one blank between each two.
pub open spec fn spelled(words: Seq<Word>) -> Seq<char>
    decreases words.len(),
{
    if words.len() == 0 {
        Seq::<char>::empty()
    } else if words.len() == 1 {
        word_text(words[0])
    } else {
        spelled(words.drop_last()) + blank() + word_text(words.last())
    }
}

/// The spelling of `x`, for `0 <= x <= MAX`.
pub open spec fn english_words(x: int) -> Seq<char> {
    spelled(number_tokens(x))
}

/// All of `words` are words of a spelling.
pub open spec fn all_words(words: Seq<Word>) -> bool {
    forall|i: int| 0 <= i < words.len() ==> is_word(#[trigger] words[i])
}

/// `text` is made of lower-case letters and single blanks, and neither
/// starts nor ends with a blank.
pub open spec fn is_spaced(text: Seq<char>) -> bool {
    &&& text.len() > 0
    &&& text[0] != ' '
    &&& text.last() != ' '
    &&& forall|k: int| 0 <= k < text.len() ==> #[trigger] text[k] == ' ' || 'a' <= text[k] <= 'z'
    &&& forall|k: int| 0 <= k < text.len() - 1 ==> !(#[trigger] text[k] == ' ' && text[k + 1] == ' ')
}

/// `text` is not empty and made of lower-case letters alone.
pub open spec fn is_letters(text: Seq<char>) -> bool {
    &&& text.len() > 0
    &&& forall|k: int| 0 <= k < text.len() ==> 'a' <= #[trigger] text[k] <= 'z'
}

/// The letters of each word.
proof fn reveal_words()
    ensures
        "zero"@ == seq!['z', 'e', 'r', 'o'],
        "one"@ == seq!['o', 'n', 'e'],
        "two"@ == seq!['t', 'w', 'o'],
        "three"@ == seq!['t', 'h', 'r', 'e', 'e'],
        "four"@ == seq!['f', 'o', 'u', 'r'],
        "five"@ == seq!['f', 'i', 'v', 'e'],
        "six"@ == seq!['s', 'i', 'x'],
        "seven"@ == seq!['s', 'e', 'v', 'e', 'n'],
        "eight"@ == seq!['e', 'i', 'g', 'h', 't'],
        "nine"@ == seq!['n', 'i', 'n', 'e'],
        "ten"@ == seq!['t', 'e', 'n'],
        "eleven"@ == seq!['e', 'l', 'e', 'v', 'e', 'n'],
        "twelve"@ == seq!['t', 'w', 'e', 'l', 'v', 'e'],
        "thirteen"@ == seq!['t', 'h', 'i', 'r', 't', 'e', 'e', 'n'],
        "fourteen"@ == seq!['f', 'o', 'u', 'r', 't', 'e', 'e', 'n'],
        "fifteen"@ == seq!['f', 'i', 'f', 't', 'e', 'e', 'n'],
        "sixteen"@ == seq!['s', 'i', 'x', 't', 'e', 'e', 'n'],
        "seventeen"@ == seq!['s', 'e', 'v', 'e', 'n', 't', 'e', 'e', 'n'],
        "eighteen"@ == seq!['e', 'i', 'g', 'h', 't', 'e', 'e', 'n'],
        "nineteen"@ == seq!['n', 'i', 'n', 'e', 't', 'e', 'e', 'n'],
        "twenty"@ == seq!['t', 'w', 'e', 'n', 't', 'y'],
        "thirty"@ == seq!['t', 'h', 'i', 'r', 't', 'y'],
        "forty"@ == seq!['f', 'o', 'r', 't', 'y'],
        "fifty"@ == seq!['f', 'i', 'f', 't', 'y'],
        "sixty"@ == seq!['s', 'i', 'x', 't', 'y'],
        "seventy"@ == seq!['s', 'e', 'v', 'e', 'n', 't', 'y'],
        "eighty"@ == seq!['e', 'i', 'g', 'h', 't', 'y'],
        "ninety"@ == seq!['n', 'i', 'n', 'e', 't', 'y'],
        "hundred"@ == seq!['h', 'u', 'n', 'd', 'r', 'e', 'd'],
        "thousand"@ == seq!['t', 'h', 'o', 'u', 's', 'a', 'n', 'd'],
        "million"@ == seq!['m', 'i', 'l', 'l', 'i', 'o', 'n'],
        "billion"@ == seq!['b', 'i', 'l', 'l', 'i', 'o', 'n'],
        "trillion"@ == seq!['t', 'r', 'i', 'l', 'l', 'i', 'o', 'n'],
        blank() == seq![' '],
{
    reveal_strlit("zero");
    reveal_strlit("one");
    reveal_strlit("two");
    reveal_strlit("three");
    reveal_strlit("four");
    reveal_strlit("five");
    reveal_strlit("six");
    reveal_strlit("seven");
    reveal_strlit("eight");
    reveal_strlit("nine");
    reveal_strlit("ten");
    reveal_strlit("eleven");
    reveal_strlit("twelve");
    reveal_strlit("thirteen");
    reveal_strlit("fourteen");
    reveal_strlit("fifteen");
    reveal_strlit("sixteen");
    reveal_strlit("seventeen");
    reveal_strlit("eighteen");
    reveal_strlit("nineteen");
    reveal_strlit("twenty");
    reveal_strlit("thirty");
    reveal_strlit("forty");
    reveal_strlit("fifty");
    reveal_strlit("sixty");
    reveal_strlit("seventy");
    reveal_strlit("eighty");
    reveal_strlit("ninety");
    reveal_strlit("hundred");
    reveal_strlit("thousand");
    reveal_strlit("million");
    reveal_strlit("billion");
    reveal_strlit("trillion");
    reveal_strlit(" ");
    assert("zero"@ =~= seq!['z', 'e', 'r', 'o']);
    assert("one"@ =~= seq!['o', 'n', 'e']);
    assert("two"@ =~= seq!['t', 'w', 'o']);
    assert("three"@ =~= seq!['t', 'h', 'r', 'e', 'e']);
    assert("four"@ =~= seq!['f', 'o', 'u', 'r']);
    assert("five"@ =~= seq!['f', 'i', 'v', 'e']);
    assert("six"@ =~= seq!['s', 'i', 'x']);
    assert("seven"@ =~= seq!['s', 'e', 'v', 'e', 'n']);
    assert("eight"@ =~= seq!['e', 'i', 'g', 'h', 't']);
    assert("nine"@ =~= seq!['n', 'i', 'n', 'e']);
    assert("ten"@ =~= seq!['t', 'e', 'n']);
    assert("eleven"@ =~= seq!['e', 'l', 'e', 'v', 'e', 'n']);
    assert("twelve"@ =~= seq!['t', 'w', 'e', 'l', 'v', 'e']);
    assert("thirteen"@ =~= seq!['t', 'h', 'i', 'r', 't', 'e', 'e', 'n']);
    assert("fourteen"@ =~= seq!['f', 'o', 'u', 'r', 't', 'e', 'e', 'n']);
    assert("fifteen"@ =~= seq!['f', 'i', 'f', 't', 'e', 'e', 'n']);
    assert("sixteen"@ =~= seq!['s', 'i', 'x', 't', 'e', 'e', 'n']);
    assert("seventeen"@ =~= seq!['s', 'e', 'v', 'e', 'n', 't', 'e', 'e', 'n']);
    assert("eighteen"@ =~= seq!['e', 'i', 'g', 'h', 't', 'e', 'e', 'n']);
    assert("nineteen"@ =~= seq!['n', 'i', 'n', 'e', 't', 'e', 'e', 'n']);
    assert("twenty"@ =~= seq!['t', 'w', 'e', 'n', 't', 'y']);
    assert("thirty"@ =~= seq!['t', 'h', 'i', 'r', 't', 'y']);
    assert("forty"@ =~= seq!['f', 'o', 'r', 't', 'y']);
    assert("fifty"@ =~= seq!['f', 'i', 'f', 't', 'y']);
    assert("sixty"@ =~= seq!['s', 'i', 'x', 't', 'y']);
    assert("seventy"@ =~= seq!['s', 'e', 'v', 'e', 'n', 't', 'y']);
    assert("eighty"@ =~= seq!['e', 'i', 'g', 'h', 't', 'y']);
    assert("ninety"@ =~= seq!['n', 'i', 'n', 'e', 't', 'y']);
    assert("hundred"@ =~= seq!['h', 'u', 'n', 'd', 'r', 'e', 'd']);
    assert("thousand"@ =~= seq!['t', 'h', 'o', 'u', 's', 'a', 'n', 'd']);
    assert("million"@ =~= seq!['m', 'i', 'l', 'l', 'i', 'o', 'n']);
    assert("billion"@ =~= seq!['b', 'i', 'l', 'l', 'i', 'o', 'n']);
    assert("trillion"@ =~= seq!['t', 'r', 'i', 'l', 'l', 'i', 'o', 'n']);
    assert(blank() =~= seq![' ']);
}

/// Every word is made of three to nine lower-case letters, and no two
/// words are alike.
pub proof fn lemma_words_differ(v: Word, w: Word)
    requires
        is_word(v),
        is_word(w),
    ensures
        is_letters(word_text(v)),
        3 <= word_text(v).len() <= 9,
        word_text(v) == word_text(w) ==> v == w,
{
    reveal_words();
    let a = word_text(v);
    let b = word_text(w);
    assert forall|k: int| 0 <= k < a.len() implies 'a' <= #[trigger] a[k] <= 'z' by {
        if k == 0 {
        } else if k == 1 {
        } else if k == 2 {
        } else if k == 3 {
        } else if k == 4 {
        } else if k == 5 {
        } else if k == 6 {
        } else if k == 7 {
        } else {
        }
    }
    if a == b {
        assert(a.len() == b.len());
        assert(a[0] == b[0]);
        assert(a[1] == b[1]);
        assert(a[2] == b[2]);
        assert(a[a.len() - 2] == b[b.len() - 2]);
    }
}

/// The spelling of a list with one more word at its end.
pub proof fn lemma_spelled_push(words: Seq<Word>, w: Word)
    ensures
        spelled(words.push(w)) == if words.len() == 0 {
            word_text(w)
        } else {
            spelled(words) + blank() + word_text(w)
        },
{
    assert(words.push(w).drop_last() =~= words);
}

/// The spelling of two lists of words, one after the other.
pub proof fn lemma_spelled_concat(head: Seq<Word>, tail: Seq<Word>)
    requires
        tail.len() > 0,
    ensures
        spelled(head + tail) == if head.len() == 0 {
            spelled(tail)
        } else {
            spelled(head) + blank() + spelled(tail)
        },
    decreases tail.len(),
{
    let most = tail.drop_last();
    assert(head + tail =~= (head + most).push(tail.last()));
    lemma_spelled_push(head + most, tail.last());
    if most.len() == 0 {
        assert(head + most =~= head);
    } else {
        lemma_spelled_concat(head, most);
        if head.len() > 0 {
            assert(spelled(head + tail) =~= spelled(head) + blank() + spelled(tail));
        }
    }
}

/// How a spelling is made up: it ends with its last word, and before that
/// word stand a blank and the spelling of the words before it.
proof fn lemma_spelled_split(words: Seq<Word>)
    requires
        all_words(words),
        words.len() > 0,
    ensures
        is_spaced(spelled(words)),
        ({
            let text = spelled(words);
            let last = word_text(words.last());
            let cut = text.len() - last.len();
            &&& is_letters(last)
            &&& cut >= 0
            &&& text.subrange(cut, text.len() as int) == last
            &&& words.len() == 1 ==> cut == 0
            &&& words.len() > 1 ==> cut >= 2 && text[cut - 1] == ' ' && text.subrange(0, cut - 1)
                == spelled(words.drop_last())
        }),
    decreases words.len(),
{
    reveal_words();
    let text = spelled(words);
    let last = word_text(words.last());
    lemma_words_differ(words.last(), words.last());
    if words.len() == 1 {
        assert(text.subrange(0, text.len() as int) =~= last);
    } else {
        let before = spelled(words.drop_last());
        lemma_spelled_split(words.drop_last());
        let cut = text.len() - last.len();
        assert(cut == before.len() + 1);
        assert(text.subrange(cut, text.len() as int) =~= last);
        assert(text.subrange(0, cut - 1) =~= before);
        assert forall|k: int| 0 <= k < text.len() implies #[trigger] text[k] == ' ' || 'a'
            <= text[k] <= 'z' by {
            if k < before.len() {
                assert(text[k] == before[k]);
            } else if k >= cut {
                assert(text[k] == last[k - cut]);
            }
        }
        assert forall|k: int| 0 <= k < text.len() - 1 implies !(#[trigger] text[k] == ' ' && text[k
            + 1] == ' ') by {
            if k + 1 < before.len() {
                assert(text[k] == before[k]);
                assert(text[k + 1] == before[k + 1]);
            } else if k + 1 == before.len() {
                assert(text[k] == before.last());
            } else {
                assert(text[k + 1] == last[k + 1 - cut]);
            }
        }
        assert(text[0] == before[0]);
        assert(text.last() == last.last());
    }
}

/// A spelling of at least one word is made of lower-case letters and
/// single blanks, and neither starts nor ends with a blank.
pub proof fn lemma_spelled_is_spaced(words: Seq<Word>)
    requires
        all_words(words),
        words.len() > 0,
    ensures
        is_spaced(spelled(words)),
{
    lemma_spelled_split(words);
}

/// Two lists of words that are spelled alike are the same list.
pub proof fn lemma_spelled_tells_words(one: Seq<Word>, other: Seq<Word>)
    requires
        all_words(one),
        all_words(other),
        spelled(one) == spelled(other),
    ensures
        one == other,
    decreases one.len(),
{
    if one.len() == 0 || other.len() == 0 {
        if one.len() > 0 {
            lemma_spelled_split(one);
        }
        if other.len() > 0 {
            lemma_spelled_split(other);
        }
        assert(one =~= other);
    } else {
        lemma_spelled_split(one);
        lemma_spelled_split(other);
        let text = spelled(one);
        let a = word_text(one.last());
        let b = word_text(other.last());
        let cut_a = text.len() - a.len();
        let cut_b = text.len() - b.len();
        if cut_a < cut_b {
            assert(one.len() > 1 || other.len() > 1);
            assert(text[cut_b - 1] == text.subrange(cut_a, text.len() as int)[cut_b - 1 - cut_a]);
            assert(false);
        }
        if cut_b < cut_a {
            assert(text[cut_a - 1] == text.subrange(cut_b, text.len() as int)[cut_a - 1 - cut_b]);
            assert(false);
        }
        assert(a == b);
        lemma_words_differ(one.last(), other.last());
        if one.len() == 1 || other.len() == 1 {
            assert(one.len() == 1 && other.len() == 1);
            assert(one =~= other);
        } else {
            lemma_spelled_tells_words(one.drop_last(), other.drop_last());
            assert(one =~= one.drop_last().push(one.last()));
            assert(other =~= other.drop_last().push(other.last()));
        }
    }
}

/// What a list of words counts up to, read from the left: the sum so far
/// and the group in the making. A digit, a teen or a ten adds to the group,
/// "hundred" multiplies it, and the name of a scale moves the group, that
/// many times over, into the sum.
pub open spec fn count(start: (int, int), words: Seq<Word>) -> (int, int)
    decreases words.len(),
{
    if words.len() == 0 {
        start
    } else {
        let (sum, group) = count(start, words.drop_last());
        match words.last() {
            Word::Digit(d) => (sum, group + d),
            Word::Teen(t) => (sum, group + 10 + t),
            Word::Tens(t) => (sum, group + 10 * t),
            Word::Hundred => (sum, group * 100),
            Word::Scale(k) => (sum + group * scale_limit(k), 0),
        }
    }
}

/// Counting two lists one after the other is counting the second from
/// where the first ended.
proof fn lemma_count_concat(start: (int, int), head: Seq<Word>, tail: Seq<Word>)
    ensures
        count(start, head + tail) == count(count(start, head), tail),
    decreases tail.len(),
{
    if tail.len() == 0 {
        assert(head + tail =~= head);
    } else {
        assert((head + tail).drop_last() =~= head + tail.drop_last());
        lemma_count_concat(start, head, tail.drop_last());
    }
}

/// What is needed to count a single word: before it nothing is counted.
proof fn lemma_count_one(start: (int, int), w: Word)
    ensures
        count(start, Seq::<Word>::empty()) == start,
        seq![w].drop_last() == Seq::<Word>::empty(),
        seq![w].last() == w,
{
    assert(seq![w].drop_last() =~= Seq::<Word>::empty());
}

/// Two words are counted one after the other.
proof fn lemma_count_two(start: (int, int), v: Word, w: Word)
    ensures
        count(start, seq![v, w]) == count(count(start, seq![v]), seq![w]),
{
    assert(seq![v, w] =~= seq![v] + seq![w]);
    lemma_count_concat(start, seq![v], seq![w]);
}

/// The words of a group count up to the group, and they are words.
proof fn lemma_group_counts(sum: int, g: int)
    requires
        0 <= g < 1000,
    ensures
        count((sum, 0int), group_tokens(g)) == (sum, g),
        all_words(group_tokens(g)),
        g > 0 ==> group_tokens(g).len() > 0,
{
    let h = hundreds_tokens(g);
    let t = g % 100;
    lemma_count_concat((sum, 0), h, tens_tokens(t));
    let after: (int, int) = (sum, g - t);
    if g >= 100 {
        lemma_count_two((sum, 0), Word::Digit(g / 100), Word::Hundred);
        lemma_count_one((sum, 0), Word::Digit(g / 100));
        lemma_count_one((sum, g / 100), Word::Hundred);
    }
    assert(count((sum, 0), h) == after);
    if t >= 20 {
        if t % 10 > 0 {
            lemma_count_two(after, Word::Tens(t / 10), Word::Digit(t % 10));
            lemma_count_one(after, Word::Tens(t / 10));
            lemma_count_one((sum, g - t + 10 * (t / 10)), Word::Digit(t % 10));
        } else {
            lemma_count_one(after, Word::Tens(t / 10));
        }
    } else if t >= 10 {
        lemma_count_one(after, Word::Teen(t - 10));
    } else if t > 0 {
        lemma_count_one(after, Word::Digit(t));
    }
}

/// What a scale contributes counts up to its group times the scale, and is
/// made of words.
proof fn lemma_scale_counts(sum: int, x: int, k: int)
    requires
        0 <= x,
        1 <= k <= 4,
    ensures
        count((sum, 0), scale_tokens(x, k)) == (sum + scale_group(x, k) * scale_limit(k), 0int),
        all_words(scale_tokens(x, k)),
{
    let g = scale_group(x, k);
    if g != 0 {
        lemma_group_counts(sum, g);
        assert(scale_tokens(x, k).drop_last() =~= group_tokens(g));
    }
}

/// Two lists of words, one after the other, are a list of words.
proof fn lemma_all_words_concat(head: Seq<Word>, tail: Seq<Word>)
    requires
        all_words(head),
        all_words(tail),
    ensures
        all_words(head + tail),
{
    assert forall|i: int| 0 <= i < (head + tail).len() implies is_word(
        #[trigger] (head + tail)[i],
    ) by {
        if i < head.len() {
            assert((head + tail)[i] == head[i]);
        } else {
            assert((head + tail)[i] == tail[i - head.len()]);
        }
    }
}

/// A number is the sum of its groups of three digits, each times its
/// scale.
proof fn lemma_groups_sum(x: int)
    requires
        0 <= x <= MAX,
    ensures
        scale_group(x, 4) * 1000000000000 + scale_group(x, 3) * 1000000000 + scale_group(x, 2)
            * 1000000 + scale_group(x, 1) * 1000 + x % 1000 == x,
{
    let thousands = x / 1000;
    let millions = thousands / 1000;
    let billions = millions / 1000;
    let trillions = billions / 1000;
    vstd::arithmetic::div_mod::lemma_div_denominator(x, 1000, 1000);
    vstd::arithmetic::div_mod::lemma_div_denominator(x, 1000000, 1000);
    vstd::arithmetic::div_mod::lemma_div_denominator(x, 1000000000, 1000);
    assert(scale_group(x, 1) == thousands % 1000);
    assert(scale_group(x, 2) == millions % 1000);
    assert(scale_group(x, 3) == billions % 1000);
    assert(scale_group(x, 4) == trillions % 1000);
    assert(trillions < 1000);
}

/// The words of a number count up to the number, and there is at least
/// one.
pub proof fn lemma_number_counts(x: int)
    requires
        0 <= x <= MAX,
    ensures
        all_words(number_tokens(x)),
        number_tokens(x).len() > 0,
        count((0, 0), number_tokens(x)).0 + count((0, 0), number_tokens(x)).1 == x,
{
    if x == 0 {
        lemma_count_one((0, 0), Word::Digit(0));
    } else {
        let a = scale_tokens(x, 4);
        let b = scale_tokens(x, 3);
        let c = scale_tokens(x, 2);
        let d = scale_tokens(x, 1);
        let e = group_tokens(x % 1000);
        let s4 = scale_group(x, 4) * 1000000000000;
        let s3 = s4 + scale_group(x, 3) * 1000000000;
        let s2 = s3 + scale_group(x, 2) * 1000000;
        let s1 = s2 + scale_group(x, 1) * 1000;
        lemma_scale_counts(0, x, 4);
        lemma_scale_counts(s4, x, 3);
        lemma_scale_counts(s3, x, 2);
        lemma_scale_counts(s2, x, 1);
        lemma_group_counts(s1, x % 1000);
        lemma_count_concat((0, 0), a, b);
        lemma_count_concat((0, 0), a + b, c);
        lemma_count_concat((0, 0), a + b + c, d);
        lemma_count_concat((0, 0), a + b + c + d, e);
        lemma_all_words_concat(a, b);
        lemma_all_words_concat(a + b, c);
        lemma_all_words_concat(a + b + c, d);
        lemma_all_words_concat(a + b + c + d, e);
        lemma_groups_sum(x);
        assert(s1 + x % 1000 == x);
        if x % 1000 == 0 {
            assert(scale_group(x, 4) != 0 || scale_group(x, 3) != 0 || scale_group(x, 2) != 0
                || scale_group(x, 1) != 0);
        }
    }
}

/// No two numbers are spelled alike.
pub proof fn lemma_spelling_is_unique(x: int, y: int)
    requires
        0 <= x <= MAX,
        0 <= y <= MAX,
        x != y,
    ensures
        english_words(x) != english_words(y),
{
    lemma_number_counts(x);
    lemma_number_counts(y);
    if english_words(x) == english_words(y) {
        lemma_spelled_tells_words(number_tokens(x), number_tokens(y));
    }
}

/// Below a thousand, the words of a number are the words of its one group.
proof fn lemma_small_number(x: int)
    requires
        0 < x < 1000,
    ensures
        number_tokens(x) == group_tokens(x),
{
    assert(number_tokens(x) =~= group_tokens(x));
}

fn digit_name(d: i64) -> (w: &'static str)
    requires
        0 <= d <= 9,
    ensures
        w@ == digit_word(d as int),
{
    if d == 0 {
        "zero"
    } else if d == 1 {
        "one"
    } else if d == 2 {
        "two"
    } else if d == 3 {
        "three"
    } else if d == 4 {
        "four"
    } else if d == 5 {
        "five"
    } else if d == 6 {
        "six"
    } else if d == 7 {
        "seven"
    } else if d == 8 {
        "eight"
    } else {
        "nine"
    }
}

fn teen_name(t: i64) -> (w: &'static str)
    requires
        0 <= t <= 9,
    ensures
        w@ == teen_word(t as int),
{
    if t == 0 {
        "ten"
    } else if t == 1 {
        "eleven"
    } else if t == 2 {
        "twelve"
    } else if t == 3 {
        "thirteen"
    } else if t == 4 {
        "fourteen"
    } else if t == 5 {
        "fifteen"
    } else if t == 6 {
        "sixteen"
    } else if t == 7 {
        "seventeen"
    } else if t == 8 {
        "eighteen"
    } else {
        "nineteen"
    }
}

fn tens_name(t: i64) -> (w: &'static str)
    requires
        2 <= t <= 9,
    ensures
        w@ == tens_word(t as int),
{
    if t == 2 {
        "twenty"
    } else if t == 3 {
        "thirty"
    } else if t == 4 {
        "forty"
    } else if t == 5 {
        "fifty"
    } else if t == 6 {
        "sixty"
    } else if t == 7 {
        "seventy"
    } else if t == 8 {
        "eighty"
    } else {
        "ninety"
    }
}

fn scale_name(k: u8) -> (w: &'static str)
    requires
        1 <= k <= 4,
    ensures
        w@ == scale_word(k as int),
{
    if k == 1 {
        "thousand"
    } else if k == 2 {
        "million"
    } else if k == 3 {
        "billion"
    } else {
        "trillion"
    }
}

fn scale_value(k: u8) -> (limit: i64)
    requires
        1 <= k <= 4,
    ensures
        limit == scale_limit(k as int),
{
    if k == 1 {
        1000
    } else if k == 2 {
        1000000
    } else if k == 3 {
        1000000000
    } else {
        1000000000000
    }
}

/// Writes one more word at the end of `text`, after a blank if words came
/// before. `first` says that none did.
fn add_word(text: &mut String, word: &str, first: bool, Ghost(words): Ghost<Seq<Word>>, Ghost(w): Ghost<Word>)
    requires
        old(text)@ == spelled(words),
        word@ == word_text(w),
        first == (words.len() == 0),
    ensures
        final(text)@ == spelled(words.push(w)),
{
    if !first {
        text.append(" ");
    }
    text.append(word);
    proof {
        lemma_spelled_push(words, w);
        if first {
            assert(text@ =~= word_text(w));
        }
    }
}

/// Spells a group of three digits: the hundreds from one hundred on, then
/// what is left below a hundred. Fails outside `0..1000`.
///
/// A group of zero has no words, and its text is empty. Every other
/// group is spelled as [`english_int`] spells the number.
pub fn english_int_base(x: i64) -> (r: Result<String, ()>)
    ensures
        r is Ok <==> 0 <= x < 1000,
        r matches Ok(s) ==> s@ == spelled(group_tokens(x as int)),
        r matches Ok(s) ==> x > 0 ==> s@ == english_words(x as int) && is_spaced(s@),
        r matches Ok(s) ==> x == 0 ==> s@.len() == 0,
{
    if x >= 1000 || x < 0 {
        return Err(());
    }
    let mut s = String::new();
    let ghost mut words: Seq<Word> = Seq::<Word>::empty();
    let mut first = true;
    if x >= 100 {
        let hundreds: i64 = x / 100;
        add_word(&mut s, digit_name(hundreds), first, Ghost(words), Ghost(Word::Digit(hundreds as int)));
        proof {
            words = words.push(Word::Digit(hundreds as int));
        }
        add_word(&mut s, "hundred", false, Ghost(words), Ghost(Word::Hundred));
        proof {
            words = words.push(Word::Hundred);
        }
        first = false;
    }
    assert(words =~= hundreds_tokens(x as int));
    let tens: i64 = x % 100;
    if tens >= 20 {
        let i: i64 = tens / 10;
        add_word(&mut s, tens_name(i), first, Ghost(words), Ghost(Word::Tens(i as int)));
        proof {
            words = words.push(Word::Tens(i as int));
        }
        if tens % 10 > 0 {
            add_word(&mut s, digit_name(tens % 10), false, Ghost(words), Ghost(Word::Digit((tens % 10) as int)));
            proof {
                words = words.push(Word::Digit((tens % 10) as int));
            }
        }
    } else if tens >= 10 {
        add_word(&mut s, teen_name(tens - 10), first, Ghost(words), Ghost(Word::Teen((tens - 10) as int)));
        proof {
            words = words.push(Word::Teen((tens - 10) as int));
        }
    } else if tens > 0 {
        add_word(&mut s, digit_name(tens), first, Ghost(words), Ghost(Word::Digit(tens as int)));
        proof {
            words = words.push(Word::Digit(tens as int));
        }
    }
    proof {
        assert(words =~= group_tokens(x as int));
        if x > 0 {
            lemma_small_number(x as int);
            lemma_group_counts(0, x as int);
            lemma_spelled_is_spaced(words);
        }
    }
    Ok(s)
}

/// Writes at the end of `text` what the `k`-th scale contributes to the
/// spelling of `x`. `first` says that no words came before; what is returned
/// says the same of the text as it then is.
fn append_scale(text: &mut String, x: i64, k: u8, first: bool, Ghost(words): Ghost<Seq<Word>>) -> (still_first: bool)
    requires
        0 <= x,
        1 <= k <= 4,
        old(text)@ == spelled(words),
        first == (words.len() == 0),
    ensures
        final(text)@ == spelled(words + scale_tokens(x as int, k as int)),
        still_first == ((words + scale_tokens(x as int, k as int)).len() == 0),
{
    let limit: i64 = scale_value(k);
    let group: i64 = (x / limit) % 1000;
    if group == 0 {
        assert(words + scale_tokens(x as int, k as int) =~= words);
        return first;
    }
    let ghost tokens = group_tokens(group as int);
    proof {
        lemma_group_counts(0, group as int);
    }
    match english_int_base(group) {
        Ok(spelling) => {
            if !first {
                text.append(" ");
            }
            text.append(spelling.as_str());
            proof {
                lemma_spelled_concat(words, tokens);
                if first {
                    assert(text@ =~= spelled(tokens));
                }
            }
            add_word(text, scale_name(k), false, Ghost(words + tokens), Ghost(Word::Scale(k as int)));
            assert((words + tokens).push(Word::Scale(k as int)) =~= words + scale_tokens(
                x as int,
                k as int,
            ));
        },
        Err(_) => {
            assert(false);
        },
    }
    false
}

/// Spells `x` in English words. Fails when `x` is negative or exceeds
/// [`MAX`].
///
/// The words are lower-case and one blank apart, and the text neither
/// starts nor ends with a blank. Zero is spelled "zero"; in any other
/// number, groups of zero are passed over. No two numbers are spelled
/// alike ([`lemma_spelling_is_unique`]).
pub fn english_int(x: i64) -> (r: Result<String, ()>)
    ensures
        r is Ok <==> 0 <= x <= MAX,
        r matches Ok(s) ==> s@ == english_words(x as int),
        r matches Ok(s) ==> is_spaced(s@),
{
    if x > MAX || x < 0 {
        return Err(());
    }
    proof {
        lemma_number_counts(x as int);
        lemma_spelled_is_spaced(number_tokens(x as int));
    }
    if x == 0 {
        return Ok(String::from_str(digit_name(0)));
    }
    let mut s = String::new();
    let ghost mut words: Seq<Word> = Seq::<Word>::empty();
    let mut first = true;
    first = append_scale(&mut s, x, 4, first, Ghost(words));
    proof {
        words = words + scale_tokens(x as int, 4);
    }
    first = append_scale(&mut s, x, 3, first, Ghost(words));
    proof {
        words = words + scale_tokens(x as int, 3);
    }
    first = append_scale(&mut s, x, 2, first, Ghost(words));
    proof {
        words = words + scale_tokens(x as int, 2);
    }
    first = append_scale(&mut s, x, 1, first, Ghost(words));
    proof {
        words = words + scale_tokens(x as int, 1);
        assert(words =~= scale_tokens(x as int, 4) + scale_tokens(x as int, 3) + scale_tokens(
            x as int,
            2,
        ) + scale_tokens(x as int, 1));
    }
    let rest: i64 = x % 1000;
    if rest > 0 {
        proof {
            lemma_group_counts(0, rest as int);
        }
        match english_int_base(rest) {
            Ok(spelling) => {
                if !first {
                    s.append(" ");
                }
                s.append(spelling.as_str());
                proof {
                    lemma_spelled_concat(words, group_tokens(rest as int));
                    if first {
                        assert(s@ =~= spelled(group_tokens(rest as int)));
                    }
                }
            },
            Err(_) => {
                assert(false);
            },
        }
    } else {
        assert(words + group_tokens(0) =~= words);
    }
    Ok(s)
}

} // verus!
