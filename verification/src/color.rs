//! Per-letter feedback for a guess against the answer: the duplicate-aware
//! two-pass coloring algorithm, its specification, and the counting laws
//! that bound how often a letter can be credited.
//!
//! Pass one marks exact matches Green and tallies, per letter, the answer
//! cells the guess missed. Pass two walks the guess left to right and turns
//! a mismatched cell Yellow while its letter still has unmatched answer
//! occurrences left, so duplicates in the guess are credited at most once
//! per occurrence in the answer.

use crate::row::{is_letter, row_concrete, Row};
use vstd::prelude::*;

verus! {

/// Per-letter verdict. `White` is the "unused" shade a display needs for
/// letters not yet guessed; the algorithm itself only produces `Gray`,
/// `Yellow` and `Green`.
#[derive(Clone, Copy, Debug, PartialEq, Eq, Structural, PartialOrd)]
pub enum Color {
    White,
    Gray,
    Yellow,
    Green,
}

/// Pass-one tally for letter `x` over the first `n` cells: the number of
/// positions where the answer holds `x` and the guess missed it.
pub open spec fn unmatched_below(g: Seq<u8>, a: Seq<u8>, x: u8, n: int) -> nat
    decreases n,
{
    if n <= 0 {
        0
    } else {
        unmatched_below(g, a, x, n - 1)
            + (if a[n - 1] == x && g[n - 1] != a[n - 1] { 1nat } else { 0nat })
    }
}

/// The full pass-one tally for letter `x`: occurrences of `x` in the answer
/// not matched exactly by the guess.
pub open spec fn unmatched_total(g: Seq<u8>, a: Seq<u8>, x: u8) -> nat {
    unmatched_below(g, a, x, 5)
}

/// The second pass turns position `i` Yellow: the guess misses the answer
/// there, and the guessed letter still has unmatched answer occurrences that
/// yellows to its left have not used up.
pub open spec fn yellow_at(g: Seq<u8>, a: Seq<u8>, i: int) -> bool
    decreases i, 1int,
{
    g[i] != a[i] && yellows_below(g, a, g[i], i) < unmatched_total(g, a, g[i])
}

/// Number of Yellow verdicts granted to letter `x` among the first `n`
/// positions.
pub open spec fn yellows_below(g: Seq<u8>, a: Seq<u8>, x: u8, n: int) -> nat
    decreases n, 0int,
{
    if n <= 0 {
        0
    } else {
        yellows_below(g, a, x, n - 1)
            + (if g[n - 1] == x && yellow_at(g, a, n - 1) { 1nat } else { 0nat })
    }
}

/// The verdict the two-pass algorithm gives position `i`.
pub open spec fn color_at(g: Seq<u8>, a: Seq<u8>, i: int) -> Color {
    if g[i] == a[i] {
        Color::Green
    } else if yellow_at(g, a, i) {
        Color::Yellow
    } else {
        Color::Gray
    }
}

/// The five verdicts for a guess row against an answer row.
pub open spec fn colors_spec(g: Seq<u8>, a: Seq<u8>) -> Seq<Color> {
    Seq::new(5, |i: int| color_at(g, a, i))
}

/// A pass-one tally over `n` cells never exceeds `n`.
proof fn lemma_unmatched_below_le(g: Seq<u8>, a: Seq<u8>, x: u8, n: int)
    requires
        n >= 0,
    ensures
        unmatched_below(g, a, x, n) <= n,
    decreases n,
{
    if n > 0 {
        lemma_unmatched_below_le(g, a, x, n - 1);
    }
}

/// One unfolding of `yellows_below`: the count over `i + 1` positions adds
/// one exactly when position `i` is a yellow for letter `x`.
proof fn lemma_yellows_step(g: Seq<u8>, a: Seq<u8>, x: u8, i: int)
    requires
        i >= 0,
    ensures
        yellows_below(g, a, x, i + 1) == yellows_below(g, a, x, i)
            + (if g[i] == x && yellow_at(g, a, i) { 1nat } else { 0nat }),
{
}

/// Pass two never grants letter `x` more yellows than its pass-one tally.
proof fn lemma_yellows_le_total(g: Seq<u8>, a: Seq<u8>, x: u8, n: int)
    requires
        n >= 0,
    ensures
        yellows_below(g, a, x, n) <= unmatched_total(g, a, x),
    decreases n,
{
    if n > 0 {
        lemma_yellows_le_total(g, a, x, n - 1);
        lemma_yellows_step(g, a, x, n - 1);
        if g[n - 1] == x && yellow_at(g, a, n - 1) {
            assert(yellows_below(g, a, x, n - 1) < unmatched_total(g, a, x));
        }
    }
}

/// Compute the five verdicts for `guess` against `correct`, both fully
/// concrete rows, by the two-pass algorithm.
pub fn color_word(guess: &Row, correct: &Row) -> (colors: [Color; 5])
    requires
        row_concrete(guess@),
        row_concrete(correct@),
    ensures
        colors@ == colors_spec(guess@, correct@),
{
    let mut colors: [Color; 5] =
        [Color::Gray, Color::Gray, Color::Gray, Color::Gray, Color::Gray];
    let mut unmatched: [u8; 26] = [
        0, 0, 0, 0, 0, 0, 0, 0, 0, 0, 0, 0, 0, 0, 0, 0, 0, 0, 0, 0, 0, 0, 0, 0, 0, 0,
    ];

    // Pass one: mark exact matches Green and tally missed answer letters.
    let mut i: usize = 0;
    while i < 5
        invariant
            i <= 5,
            row_concrete(guess@),
            row_concrete(correct@),
            forall|j: int| 0 <= j < i ==> colors@[j]
                == (if guess@[j] == correct@[j] { Color::Green } else { Color::Gray }),
            forall|j: int| i <= j < 5 ==> colors@[j] == Color::Gray,
            forall|x: u8| is_letter(x) ==> unmatched@[x as int]
                == unmatched_below(guess@, correct@, x, i as int),
        decreases 5 - i,
    {
        if guess.0[i] == correct.0[i] {
            colors[i] = Color::Green;
        } else {
            let c = correct.0[i];
            proof {
                lemma_unmatched_below_le(guess@, correct@, c, i as int);
            }
            unmatched[c as usize] = unmatched[c as usize] + 1;
        }
        i = i + 1;
    }

    // Pass two: left to right, spend the tally on mismatched guess letters.
    let mut i: usize = 0;
    while i < 5
        invariant
            i <= 5,
            row_concrete(guess@),
            row_concrete(correct@),
            forall|j: int| 0 <= j < i ==> colors@[j] == color_at(guess@, correct@, j),
            forall|j: int| i <= j < 5 ==> colors@[j]
                == (if guess@[j] == correct@[j] { Color::Green } else { Color::Gray }),
            forall|x: u8| is_letter(x) ==>
                yellows_below(guess@, correct@, x, i as int)
                    <= unmatched_total(guess@, correct@, x),
            forall|x: u8| is_letter(x) ==> unmatched@[x as int]
                == unmatched_total(guess@, correct@, x)
                    - yellows_below(guess@, correct@, x, i as int),
        decreases 5 - i,
    {
        let ghost g = guess@;
        let ghost a = correct@;
        let ghost ii = i as int;
        if guess.0[i] != correct.0[i] {
            let gi = guess.0[i];
            if unmatched[gi as usize] > 0 {
                proof {
                    assert(unmatched@[gi as int]
                        == unmatched_total(g, a, gi) - yellows_below(g, a, gi, ii));
                    assert(yellow_at(g, a, ii));
                }
                colors[i] = Color::Yellow;
                unmatched[gi as usize] = unmatched[gi as usize] - 1;
                proof {
                    assert forall|x: u8| is_letter(x) implies yellows_below(g, a, x, ii + 1)
                        == yellows_below(g, a, x, ii)
                            + (if x == gi { 1nat } else { 0nat }) by {
                        lemma_yellows_step(g, a, x, ii);
                    }
                }
            } else {
                proof {
                    assert(unmatched@[gi as int]
                        == unmatched_total(g, a, gi) - yellows_below(g, a, gi, ii));
                    assert(!yellow_at(g, a, ii));
                    assert forall|x: u8| is_letter(x) implies yellows_below(g, a, x, ii + 1)
                        == yellows_below(g, a, x, ii) by {
                        lemma_yellows_step(g, a, x, ii);
                    }
                }
            }
        } else {
            proof {
                assert(!yellow_at(g, a, ii));
                assert forall|x: u8| is_letter(x) implies yellows_below(g, a, x, ii + 1)
                    == yellows_below(g, a, x, ii) by {
                    lemma_yellows_step(g, a, x, ii);
                }
            }
        }
        i = i + 1;
    }

    proof {
        assert(colors@ =~= colors_spec(guess@, correct@));
    }
    colors
}

/// Number of positions among the first `n` whose verdict is exactly `c`.
pub open spec fn count_color_below(cs: Seq<Color>, c: Color, n: int) -> nat
    decreases n,
{
    if n <= 0 {
        0
    } else {
        count_color_below(cs, c, n - 1) + (if cs[n - 1] == c { 1nat } else { 0nat })
    }
}

/// Number of positions among the first `n` where guess and answer agree.
pub open spec fn matches_below(g: Seq<u8>, a: Seq<u8>, n: int) -> nat
    decreases n,
{
    if n <= 0 {
        0
    } else {
        matches_below(g, a, n - 1) + (if g[n - 1] == a[n - 1] { 1nat } else { 0nat })
    }
}

/// Number of occurrences of letter `x` among the first `n` cells of `s`.
pub open spec fn count_letter_below(s: Seq<u8>, x: u8, n: int) -> nat
    decreases n,
{
    if n <= 0 {
        0
    } else {
        count_letter_below(s, x, n - 1) + (if s[n - 1] == x { 1nat } else { 0nat })
    }
}

/// Number of positions among the first `n` where the guess shows `x` and the
/// verdict credits it (Yellow or Green).
pub open spec fn credited_below(g: Seq<u8>, a: Seq<u8>, x: u8, n: int) -> nat
    decreases n,
{
    if n <= 0 {
        0
    } else {
        credited_below(g, a, x, n - 1)
            + (if g[n - 1] == x
                && (color_at(g, a, n - 1) == Color::Yellow
                    || color_at(g, a, n - 1) == Color::Green) { 1nat } else { 0nat })
    }
}

/// Number of positions among the first `n` where the answer holds `x` and the
/// guess matched it exactly.
pub open spec fn greens_below(g: Seq<u8>, a: Seq<u8>, x: u8, n: int) -> nat
    decreases n,
{
    if n <= 0 {
        0
    } else {
        greens_below(g, a, x, n - 1)
            + (if a[n - 1] == x && g[n - 1] == a[n - 1] { 1nat } else { 0nat })
    }
}

proof fn lemma_green_count_below(g: Seq<u8>, a: Seq<u8>, n: int)
    requires
        0 <= n <= 5,
    ensures
        count_color_below(colors_spec(g, a), Color::Green, n) == matches_below(g, a, n),
    decreases n,
{
    if n > 0 {
        lemma_green_count_below(g, a, n - 1);
        assert(colors_spec(g, a)[n - 1] == color_at(g, a, n - 1));
    }
}

/// The coloring has exactly one Green per position where guess and answer
/// agree: the Green count equals the number of exact matches.
pub proof fn lemma_green_count(g: Seq<u8>, a: Seq<u8>)
    ensures
        count_color_below(colors_spec(g, a), Color::Green, 5) == matches_below(g, a, 5),
{
    lemma_green_count_below(g, a, 5);
}

/// Guessing the answer itself turns every cell Green.
pub proof fn lemma_self_guess_all_green(g: Seq<u8>)
    ensures
        forall|i: int| 0 <= i < 5 ==> colors_spec(g, g)[i] == Color::Green,
{
}

proof fn lemma_letter_partition(g: Seq<u8>, a: Seq<u8>, x: u8, n: int)
    requires
        n >= 0,
    ensures
        count_letter_below(a, x, n)
            == greens_below(g, a, x, n) + unmatched_below(g, a, x, n),
    decreases n,
{
    if n > 0 {
        lemma_letter_partition(g, a, x, n - 1);
    }
}

proof fn lemma_credited_split(g: Seq<u8>, a: Seq<u8>, x: u8, n: int)
    requires
        n >= 0,
    ensures
        credited_below(g, a, x, n) == greens_below(g, a, x, n) + yellows_below(g, a, x, n),
    decreases n,
{
    if n > 0 {
        lemma_credited_split(g, a, x, n - 1);
        lemma_yellows_step(g, a, x, n - 1);
        if g[n - 1] == x {
            if g[n - 1] == a[n - 1] {
                assert(color_at(g, a, n - 1) == Color::Green);
                assert(!yellow_at(g, a, n - 1));
            } else if yellow_at(g, a, n - 1) {
                assert(color_at(g, a, n - 1) == Color::Yellow);
            } else {
                assert(color_at(g, a, n - 1) == Color::Gray);
            }
        }
    }
}

/// A letter appearing `k` times in the answer is credited (Yellow or Green)
/// at most `k` times across the guess.
pub proof fn lemma_credit_bounded(g: Seq<u8>, a: Seq<u8>, x: u8)
    ensures
        credited_below(g, a, x, 5) <= count_letter_below(a, x, 5),
{
    lemma_credited_split(g, a, x, 5);
    lemma_yellows_le_total(g, a, x, 5);
    lemma_letter_partition(g, a, x, 5);
}

} // verus!
