//! The letter and row value model: a letter is an index `0..=25` into the
//! alphabet (with a reserved sentinel for "unfilled"), and a row is exactly
//! five letters — a guess, the answer, or an empty grid slot.

use vstd::prelude::*;

verus! {

/// Sentinel letter value meaning "not yet filled".
pub const BLANK: u8 = u8::MAX;

/// A concrete letter: an index into `'a'..='z'`.
pub open spec fn is_letter(c: u8) -> bool {
    c <= 25
}

/// Every cell of the row is the `BLANK` sentinel.
pub open spec fn row_blank(s: Seq<u8>) -> bool {
    forall|i: int| 0 <= i < s.len() ==> s[i] == BLANK
}

/// Every cell of the row holds a concrete letter (no `BLANK`).
pub open spec fn row_concrete(s: Seq<u8>) -> bool {
    forall|i: int| 0 <= i < s.len() ==> is_letter(s[i])
}

/// Five letters: a guess, the hidden answer, or an empty grid slot.
#[derive(Clone, Copy)]
pub struct Row(pub [u8; 5]);

impl View for Row {
    type V = Seq<u8>;

    open spec fn view(&self) -> Seq<u8> {
        self.0@
    }
}

impl Row {
    /// The empty grid slot: all five cells unfilled.
    pub fn blank() -> (r: Row)
        ensures
            row_blank(r@),
    {
        Row([BLANK, BLANK, BLANK, BLANK, BLANK])
    }

    /// Whether this row is an empty slot (all cells `BLANK`).
    pub fn is_blank(&self) -> (b: bool)
        ensures
            b == row_blank(self@),
    {
        self.0[0] == BLANK && self.0[1] == BLANK && self.0[2] == BLANK
            && self.0[3] == BLANK && self.0[4] == BLANK
    }

    /// Whether every cell holds a concrete letter.
    pub fn is_concrete(&self) -> (b: bool)
        ensures
            b == row_concrete(self@),
    {
        self.0[0] <= 25 && self.0[1] <= 25 && self.0[2] <= 25
            && self.0[3] <= 25 && self.0[4] <= 25
    }

    /// Build a row from raw ASCII text: `Some` exactly when the text is five
    /// lowercase letters, each mapped to its letter index.
    pub fn from_ascii(text: &[u8]) -> (r: Option<Row>)
        ensures
            match r {
                Option::Some(row) => text@.len() == 5 && row_concrete(row@)
                    && (forall|i: int| 0 <= i < 5 ==> text@[i] == row@[i] + 97),
                Option::None => !(text@.len() == 5
                    && forall|i: int| 0 <= i < 5 ==> 97 <= #[trigger] text@[i] <= 122),
            },
    {
        if text.len() != 5 {
            return Option::None;
        }
        let mut k: usize = 0;
        while k < 5
            invariant
                k <= 5,
                text@.len() == 5,
                forall|i: int| 0 <= i < k ==> 97 <= #[trigger] text@[i] <= 122,
            decreases 5 - k,
        {
            if text[k] < 97 || text[k] > 122 {
                return Option::None;
            }
            k = k + 1;
        }
        let row = Row([text[0] - 97, text[1] - 97, text[2] - 97, text[3] - 97, text[4] - 97]);
        Option::Some(row)
    }

    /// Element-wise equality of two rows.
    pub fn same_letters(&self, other: &Row) -> (b: bool)
        ensures
            b == (self@ == other@),
    {
        let b = self.0[0] == other.0[0] && self.0[1] == other.0[1]
            && self.0[2] == other.0[2] && self.0[3] == other.0[3]
            && self.0[4] == other.0[4];
        proof {
            if b {
                assert(self@ =~= other@);
            }
        }
        b
    }
}

} // verus!
