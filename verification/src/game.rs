//! The game value and the turn state machine: a grid of six slots filled
//! from the top, the hidden answer, and the transition that validates,
//! places and classifies each guess.

use crate::color::{color_at, color_word, colors_spec, Color};
use crate::dict::Dictionary;
use crate::row::{row_blank, row_concrete, Row};
use vstd::prelude::*;
use vstd::string::StringExecFns;

verus! {

/// The emoji square a transcript shows for one verdict.
pub open spec fn moji_of(c: Color) -> char {
    match c {
        Color::Green => '🟩',
        Color::Yellow => '🟨',
        _ => '⬛',
    }
}

/// One transcript line: the five squares for a filled row, then a newline.
pub open spec fn row_mojis(g: Seq<u8>, a: Seq<u8>) -> Seq<char> {
    Seq::new(5, |i: int| moji_of(color_at(g, a, i))).push('\n')
}

/// Why a guess was turned away without consuming a turn.
#[derive(Clone, Copy, Debug, PartialEq, Eq, Structural)]
pub enum RejectReason {
    /// The guess is not a word of the dictionary.
    NotInDictionary,
}

/// A match in progress: six grid slots, filled from the top with accepted
/// guesses, and the hidden answer. A game is an immutable value; every
/// transition yields a new one.
#[derive(Clone, Copy)]
pub struct Game {
    pub grid: [Row; 6],
    pub answer: Row,
}

/// The outcome of one guess.
pub enum TurnResult {
    /// The guess was accepted and the match goes on.
    Continue(Game),
    /// The sixth accepted guess was wrong: the match is lost.
    Lose(Game),
    /// The accepted guess was the answer: the match is won.
    Win(Game),
    /// The guess was turned away; the game is unchanged.
    Rejected(RejectReason),
}

impl Game {
    /// Grid slot `i` as its letter sequence.
    pub open spec fn row_at(self, i: int) -> Seq<u8> {
        self.grid@[i]@
    }

    /// The first empty slot at or after `i`; six when none is empty.
    pub open spec fn first_blank_from(self, i: int) -> int
        decreases 6 - i,
    {
        if i >= 6 {
            6
        } else if row_blank(self.row_at(i)) {
            i
        } else {
            self.first_blank_from(i + 1)
        }
    }

    /// The number of the coming turn: the count of filled slots, which under
    /// `wf` is the index of the first empty one (six when the grid is full).
    pub open spec fn turn_of(self) -> int {
        self.first_blank_from(0)
    }

    /// Well-formed: the answer is concrete, every slot is either empty or a
    /// concrete word, and slots fill from the top (nothing empty below a
    /// filled slot).
    pub open spec fn wf(self) -> bool {
        &&& row_concrete(self.answer@)
        &&& forall|i: int| 0 <= i < 6 ==> row_blank(#[trigger] self.row_at(i))
            || row_concrete(self.row_at(i))
        &&& forall|i: int, j: int| 0 <= i < j < 6 && !row_blank(#[trigger] self.row_at(j))
            ==> !row_blank(#[trigger] self.row_at(i))
    }

    proof fn lemma_first_blank_bounds(self, i: int)
        requires
            0 <= i <= 6,
        ensures
            i <= self.first_blank_from(i) <= 6,
            forall|j: int| i <= j < self.first_blank_from(i)
                ==> !row_blank(#[trigger] self.row_at(j)),
            self.first_blank_from(i) < 6 ==> row_blank(self.row_at(self.first_blank_from(i))),
        decreases 6 - i,
    {
        if i < 6 && !row_blank(self.row_at(i)) {
            self.lemma_first_blank_bounds(i + 1);
        }
    }

    proof fn lemma_first_blank_of_shape(self, i: int, t: int)
        requires
            0 <= i <= t <= 6,
            forall|j: int| i <= j < t ==> !row_blank(#[trigger] self.row_at(j)),
            t < 6 ==> row_blank(self.row_at(t)),
        ensures
            self.first_blank_from(i) == t,
        decreases t - i,
    {
        if i < t {
            self.lemma_first_blank_of_shape(i + 1, t);
        }
    }

    /// The grid's shape under `wf`: the turn number lies in `0..=6`, every
    /// slot before it holds a concrete word, and every slot from it on is
    /// empty.
    pub proof fn lemma_turn_shape(self)
        requires
            self.wf(),
        ensures
            0 <= self.turn_of() <= 6,
            forall|i: int| 0 <= i < self.turn_of() ==> row_concrete(#[trigger] self.row_at(i)),
            forall|i: int| self.turn_of() <= i < 6 ==> row_blank(#[trigger] self.row_at(i)),
    {
        self.lemma_first_blank_bounds(0);
        let t = self.turn_of();
        assert forall|i: int| 0 <= i < t implies row_concrete(#[trigger] self.row_at(i)) by {
            assert(!row_blank(self.row_at(i)));
        }
        assert forall|i: int| t <= i < 6 implies row_blank(#[trigger] self.row_at(i)) by {
            if i > t && !row_blank(self.row_at(i)) {
                assert(!row_blank(self.row_at(t)));
            }
        }
    }

    /// A fresh match: the given answer and an all-empty grid.
    pub fn new(answer: [u8; 5]) -> (game: Game)
        requires
            row_concrete(answer@),
        ensures
            game.wf(),
            game.turn_of() == 0,
            game.answer@ == answer@,
            forall|i: int| 0 <= i < 6 ==> row_blank(#[trigger] game.row_at(i)),
    {
        let game = Game {
            grid: [
                Row::blank(),
                Row::blank(),
                Row::blank(),
                Row::blank(),
                Row::blank(),
                Row::blank(),
            ],
            answer: Row(answer),
        };
        proof {
            game.lemma_first_blank_of_shape(0, 0);
        }
        game
    }

    /// The number of the coming turn: how many slots are filled.
    pub fn turn_no(&self) -> (t: u8)
        ensures
            t as int == self.turn_of(),
    {
        let mut i: usize = 0;
        while i < 6
            invariant
                i <= 6,
                self.turn_of() == self.first_blank_from(i as int),
            decreases 6 - i,
        {
            if self.grid[i].is_blank() {
                return i as u8;
            }
            i = i + 1;
        }
        6
    }

    /// The transcript of the first `n` slots: one line per filled slot.
    pub open spec fn mojis_below(self, n: int) -> Seq<char>
        decreases n,
    {
        if n <= 0 {
            Seq::empty()
        } else {
            self.mojis_below(n - 1) + (if row_blank(self.row_at(n - 1)) {
                Seq::<char>::empty()
            } else {
                row_mojis(self.row_at(n - 1), self.answer@)
            })
        }
    }

    /// The shareable transcript: for each filled row its five verdicts
    /// against the answer as emoji squares, one row per line.
    pub fn result_mojis(&self) -> (buf: String)
        requires
            self.wf(),
        ensures
            buf@ == self.mojis_below(6),
    {
        let mut buf = String::new();
        let mut i: usize = 0;
        while i < 6
            invariant
                i <= 6,
                self.wf(),
                buf@ == self.mojis_below(i as int),
            decreases 6 - i,
        {
            let ghost gi = self.row_at(i as int);
            let ghost a = self.answer@;
            if !self.grid[i].is_blank() {
                let colors = color_word(&self.grid[i], &self.answer);
                let mut j: usize = 0;
                while j < 5
                    invariant
                        j <= 5,
                        i < 6,
                        self.wf(),
                        gi == self.row_at(i as int),
                        a == self.answer@,
                        !row_blank(gi),
                        colors@ == colors_spec(gi, a),
                        buf@ == self.mojis_below(i as int)
                            + Seq::new(j as nat, |k: int| moji_of(color_at(gi, a, k))),
                    decreases 5 - j,
                {
                    let ghost buf0 = buf@;
                    let c = colors[j];
                    match c {
                        Color::Green => buf.append("🟩"),
                        Color::Yellow => buf.append("🟨"),
                        _ => buf.append("⬛"),
                    }
                    proof {
                        reveal_strlit("🟩");
                        reveal_strlit("🟨");
                        reveal_strlit("⬛");
                        assert(colors@[j as int] == color_at(gi, a, j as int));
                        assert(buf@ =~= buf0.push(moji_of(color_at(gi, a, j as int))));
                        assert(buf@ =~= self.mojis_below(i as int)
                            + Seq::new(j as nat + 1, |k: int| moji_of(color_at(gi, a, k))));
                    }
                    j = j + 1;
                }
                buf.append("\n");
                proof {
                    reveal_strlit("\n");
                    assert(buf@ =~= self.mojis_below(i as int) + row_mojis(gi, a));
                    assert(buf@ =~= self.mojis_below(i as int + 1));
                }
            }
            i = i + 1;
        }
        buf
    }

    /// The accepted word `w` fills slot `turn_of` of `self` in `next`;
    /// everything else is unchanged.
    pub open spec fn places(self, next: Game, w: Seq<u8>) -> bool {
        &&& next.answer@ == self.answer@
        &&& next.row_at(self.turn_of()) == w
        &&& forall|i: int| 0 <= i < 6 && i != self.turn_of()
            ==> #[trigger] next.row_at(i) == self.row_at(i)
    }

    /// Play `candidate` on the coming turn.
    ///
    /// A word the dictionary does not contain is turned away and the game is
    /// unchanged. Otherwise the dictionary's stored form of the word fills
    /// the next slot and exactly one of three outcomes holds: Win when the
    /// word is the answer (even on the last turn), Lose when the last slot
    /// was just filled by a wrong word, Continue otherwise. An accepted
    /// guess always advances the turn number by one.
    pub fn guess(self, dict: &Dictionary, candidate: [u8; 5]) -> (outcome: TurnResult)
        requires
            self.wf(),
            dict.wf(),
            self.turn_of() < 6,
            row_concrete(candidate@),
        ensures
            !dict.spec_contains(candidate@) ==> outcome
                == TurnResult::Rejected(RejectReason::NotInDictionary),
            dict.spec_contains(candidate@) ==> match outcome {
                TurnResult::Continue(next) => self.places(next, candidate@) && next.wf()
                    && next.turn_of() == self.turn_of() + 1 && candidate@ != self.answer@
                    && self.turn_of() < 5,
                TurnResult::Win(next) => self.places(next, candidate@) && next.wf()
                    && next.turn_of() == self.turn_of() + 1 && candidate@ == self.answer@,
                TurnResult::Lose(next) => self.places(next, candidate@) && next.wf()
                    && next.turn_of() == self.turn_of() + 1 && candidate@ != self.answer@
                    && self.turn_of() == 5,
                TurnResult::Rejected(_) => false,
            },
    {
        let guessed = Row(candidate);
        if !dict.contains(&guessed) {
            return TurnResult::Rejected(RejectReason::NotInDictionary);
        }
        let word = dict.canonicalize(&guessed);
        let turn = self.turn_no();
        let t = turn as usize;
        let next = Game {
            grid: [
                if t == 0 { word } else { self.grid[0] },
                if t == 1 { word } else { self.grid[1] },
                if t == 2 { word } else { self.grid[2] },
                if t == 3 { word } else { self.grid[3] },
                if t == 4 { word } else { self.grid[4] },
                if t == 5 { word } else { self.grid[5] },
            ],
            answer: self.answer,
        };
        proof {
            self.lemma_turn_shape();
            assert forall|i: int| 0 <= i < 6 && i != t as int implies #[trigger] next.row_at(i)
                == self.row_at(i) by {
            }
            assert(next.row_at(t as int) == word@);
            assert(crate::row::is_letter(word@[0]));
            assert(!row_blank(word@));
            assert forall|i: int| 0 <= i < t as int + 1 implies !row_blank(
                #[trigger] next.row_at(i),
            ) by {
                if i < t as int {
                    assert(row_concrete(self.row_at(i)));
                    assert(crate::row::is_letter(next.row_at(i)[0]));
                }
            }
            next.lemma_first_blank_of_shape(0, t as int + 1);
        }
        if guessed.same_letters(&self.answer) {
            return TurnResult::Win(next);
        }
        if turn >= 5 {
            return TurnResult::Lose(next);
        }
        TurnResult::Continue(next)
    }
}

} // verus!
