//! What a run amounts to: counts of characters and mistakes, the time it
//! took, and the accuracy and speed that follow from them.

use vstd::prelude::*;

verus! {

/// Among the first `n` characters, how many of `typed` equal the character
/// of `target` at the same place.
pub open spec fn count_matches(typed: Seq<char>, target: Seq<char>, n: int) -> int
    decreases n,
{
    if n <= 0 {
        0
    } else {
        count_matches(typed, target, n - 1) + if typed[n - 1] == target[n - 1] {
            1int
        } else {
            0int
        }
    }
}

/// How many places both `typed` and `target` have.
pub open spec fn compared(typed: Seq<char>, target: Seq<char>) -> int {
    if typed.len() <= target.len() {
        typed.len() as int
    } else {
        target.len() as int
    }
}

/// No more places match than were looked at.
pub proof fn lemma_count_matches_bounds(typed: Seq<char>, target: Seq<char>, n: int)
    requires
        0 <= n,
    ensures
        0 <= count_matches(typed, target, n) <= n,
    decreases n,
{
    if n > 0 {
        lemma_count_matches_bounds(typed, target, n - 1);
    }
}

/// Every place matches exactly when the two texts agree on all of them.
pub proof fn lemma_count_matches_full(typed: Seq<char>, target: Seq<char>, n: int)
    requires
        0 <= n,
    ensures
        count_matches(typed, target, n) == n <==> forall|i: int|
            0 <= i < n ==> typed[i] == target[i],
    decreases n,
{
    if n > 0 {
        lemma_count_matches_bounds(typed, target, n - 1);
        lemma_count_matches_full(typed, target, n - 1);
        if count_matches(typed, target, n) == n {
            assert forall|i: int| 0 <= i < n implies typed[i] == target[i] by {
                if i < n - 1 {
                }
            }
        }
    }
}

/// Compares what was typed with the target, place by place as far as both
/// reach: the number of places that agree, and of those that do not.
pub fn tally(typed: &Vec<char>, target: &Vec<char>) -> (counts: (usize, usize))
    ensures
        counts.0 == count_matches(typed@, target@, compared(typed@, target@)),
        counts.0 + counts.1 == compared(typed@, target@),
        counts.1 == 0 <==> forall|i: int|
            0 <= i < compared(typed@, target@) ==> typed@[i] == target@[i],
{
    proof {
        lemma_count_matches_full(typed@, target@, compared(typed@, target@));
    }
    let n = if typed.len() <= target.len() {
        typed.len()
    } else {
        target.len()
    };
    let mut correct: usize = 0;
    let mut wrong: usize = 0;
    let mut i: usize = 0;
    while i < n
        invariant
            i <= n,
            n <= typed.len(),
            n <= target.len(),
            correct == count_matches(typed@, target@, i as int),
            correct + wrong == i,
        decreases n - i,
    {
        if typed[i] == target[i] {
            correct += 1;
        } else {
            wrong += 1;
        }
        i += 1;
    }
    (correct, wrong)
}

/// The record of one run. Times are in milliseconds on a clock that does not
/// run backwards.
#[derive(Clone, Copy, Debug, PartialEq, Eq)]
pub struct GameResults {
    pub total_words: usize,
    pub total_chars_typed: usize,
    pub total_chars_in_text: usize,
    pub total_char_errors: usize,
    pub final_chars_typed_correctly: usize,
    pub final_uncorrected_errors: usize,
    pub started_at: u64,
    pub ended_at: u64,
}

impl GameResults {
    /// Every character of the text was compared: the run was typed to its
    /// end.
    pub open spec fn complete(&self) -> bool {
        &&& self.total_chars_in_text > 0
        &&& self.final_chars_typed_correctly + self.final_uncorrected_errors
            == self.total_chars_in_text
    }

    /// The time between the first key and the last, in milliseconds.
    pub open spec fn spec_duration_millis(&self) -> int {
        if self.ended_at >= self.started_at {
            self.ended_at - self.started_at
        } else {
            0
        }
    }

    /// The share of the text that was right at the end, in thousandths,
    /// rounded down; 0 for an empty text.
    pub open spec fn spec_accuracy_permille(&self) -> int {
        if self.total_chars_in_text == 0 {
            0
        } else {
            (self.final_chars_typed_correctly * 1000) / (self.total_chars_in_text as int)
        }
    }

    /// Words per minute in tenths, rounded down; `None` for a run that took
    /// no time.
    pub open spec fn spec_wpm_tenths(&self) -> Option<int> {
        if self.spec_duration_millis() == 0 {
            None
        } else {
            Some((self.total_words * 600_000) / self.spec_duration_millis())
        }
    }

    /// The time between the first key and the last, in milliseconds.
    pub fn duration_millis(&self) -> (d: u64)
        ensures
            d == self.spec_duration_millis(),
    {
        if self.ended_at >= self.started_at {
            self.ended_at - self.started_at
        } else {
            0
        }
    }

    /// The whole seconds that the run took.
    pub fn duration_secs(&self) -> (d: u64)
        ensures
            d == self.spec_duration_millis() / 1000,
    {
        self.duration_millis() / 1000
    }

    /// The share of the text that stood right at the end, in thousandths.
    pub fn accuracy_permille(&self) -> (a: u128)
        ensures
            a == self.spec_accuracy_permille(),
            self.complete() ==> a <= 1000 && (a == 1000 <==> self.final_uncorrected_errors == 0),
    {
        proof {
            if self.complete() {
                lemma_accuracy_bounds(*self);
            }
        }
        if self.total_chars_in_text == 0 {
            0
        } else {
            (self.final_chars_typed_correctly as u128 * 1000) / (self.total_chars_in_text as u128)
        }
    }

    /// Words per minute, in tenths.
    pub fn wpm_tenths(&self) -> (w: Option<u128>)
        ensures
            w is Some <==> self.spec_wpm_tenths() is Some,
            w is Some ==> w->0 == self.spec_wpm_tenths()->0,
    {
        let millis = self.duration_millis();
        if millis == 0 {
            None
        } else {
            Some((self.total_words as u128 * 600_000) / (millis as u128))
        }
    }
}

/// The accuracy of a run typed to its end lies between nothing and all of
/// the text, and is all of it exactly when no mistake was left standing.
pub proof fn lemma_accuracy_bounds(r: GameResults)
    requires
        r.complete(),
    ensures
        0 <= r.spec_accuracy_permille() <= 1000,
        r.spec_accuracy_permille() == 1000 <==> r.final_uncorrected_errors == 0,
{
    let c = r.final_chars_typed_correctly as int;
    let t = r.total_chars_in_text as int;
    assert(0 <= (c * 1000) / t <= 1000 && ((c * 1000) / t == 1000 <==> c == t))
        by (nonlinear_arith)
        requires
            0 <= c <= t,
            t > 0,
    ;
}

} // verus!
