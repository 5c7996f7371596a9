//! The dictionary: a read-only membership table of valid five-letter words,
//! loaded once by the surrounding program and handed to the core as a plain
//! value. It decides guess legality and supplies the authoritative stored
//! form of an accepted word.

use crate::row::{row_concrete, Row};
use vstd::prelude::*;

verus! {

/// Read-only table of valid words. Rows whose cells are not all concrete
/// letters are dropped while the table is built, so every stored word is a
/// real five-letter word.
pub struct Dictionary {
    words: Vec<Row>,
}

impl View for Dictionary {
    type V = Seq<Seq<u8>>;

    closed spec fn view(&self) -> Seq<Seq<u8>> {
        Seq::new(self.words@.len(), |i: int| self.words@[i]@)
    }
}

impl Dictionary {
    /// Membership: some stored word spells `w`.
    pub open spec fn spec_contains(self, w: Seq<u8>) -> bool {
        exists|i: int| 0 <= i < self@.len() && self@[i] == w
    }

    /// Every stored word is fully concrete.
    pub open spec fn wf(self) -> bool {
        forall|i: int| 0 <= i < self@.len() ==> row_concrete(#[trigger] self@[i])
    }

    /// Build the table from loaded rows, silently dropping any row holding a
    /// non-letter cell, as word-list preparation does.
    pub fn new(rows: Vec<Row>) -> (dict: Dictionary)
        ensures
            dict.wf(),
            forall|w: Seq<u8>| #[trigger] dict.spec_contains(w) <==> (row_concrete(w)
                && exists|k: int| 0 <= k < rows@.len() && rows@[k]@ == w),
    {
        let mut words: Vec<Row> = Vec::new();
        let mut i: usize = 0;
        while i < rows.len()
            invariant
                i <= rows@.len(),
                forall|j: int| 0 <= j < words@.len() ==> row_concrete(#[trigger] words@[j]@),
                forall|j: int| 0 <= j < words@.len() ==> exists|k: int| 0 <= k < i
                    && rows@[k]@ == #[trigger] words@[j]@,
                forall|k: int| 0 <= k < i && row_concrete(#[trigger] rows@[k]@)
                    ==> exists|j: int| 0 <= j < words@.len() && words@[j]@ == rows@[k]@,
            decreases rows@.len() - i,
        {
            let r = rows[i];
            let ghost ws0 = words@;
            if r.is_concrete() {
                words.push(r);
                proof {
                    assert forall|k: int| 0 <= k < i + 1 && row_concrete(#[trigger] rows@[k]@)
                        implies exists|j: int| 0 <= j < words@.len()
                            && words@[j]@ == rows@[k]@ by {
                        if k < i {
                            let j = choose|j: int| 0 <= j < ws0.len() && ws0[j]@ == rows@[k]@;
                            assert(words@[j]@ == rows@[k]@);
                        } else {
                            assert(words@[words@.len() - 1]@ == rows@[k]@);
                        }
                    }
                }
            }
            i = i + 1;
        }
        let dict = Dictionary { words };
        proof {
            assert forall|w: Seq<u8>| #[trigger] dict.spec_contains(w) implies (row_concrete(w)
                && exists|k: int| 0 <= k < rows@.len() && rows@[k]@ == w) by {
                let j = choose|j: int| 0 <= j < dict@.len() && dict@[j] == w;
                assert(dict@[j] == words@[j]@);
            }
            assert forall|w: Seq<u8>| (row_concrete(w)
                && exists|k: int| 0 <= k < rows@.len() && rows@[k]@ == w) implies
                #[trigger] dict.spec_contains(w) by {
                let k = choose|k: int| 0 <= k < rows@.len() && rows@[k]@ == w;
                assert(row_concrete(rows@[k]@));
                let j = choose|j: int| 0 <= j < words@.len() && words@[j]@ == w;
                assert(dict@[j] == w);
            }
            assert forall|j: int| 0 <= j < dict@.len() implies row_concrete(#[trigger] dict@[j]) by {
                assert(dict@[j] == words@[j]@);
            }
        }
        dict
    }

    /// Whether `candidate` is a word of the table.
    pub fn contains(&self, candidate: &Row) -> (b: bool)
        ensures
            b == self.spec_contains(candidate@),
    {
        let mut i: usize = 0;
        while i < self.words.len()
            invariant
                i <= self.words@.len(),
                forall|j: int| 0 <= j < i ==> (#[trigger] self.words@[j])@ != candidate@,
            decreases self.words@.len() - i,
        {
            if self.words[i].same_letters(candidate) {
                proof {
                    assert(self@[i as int] == self.words@[i as int]@);
                }
                return true;
            }
            i = i + 1;
        }
        false
    }

    /// The table's stored form of `candidate`, defined only for words the
    /// table contains. Row equality is element-wise, so the stored form
    /// spells the candidate itself.
    pub fn canonicalize(&self, candidate: &Row) -> (word: Row)
        requires
            self.spec_contains(candidate@),
        ensures
            word@ == candidate@,
            self.spec_contains(word@),
            self.wf() ==> row_concrete(word@),
    {
        let mut i: usize = 0;
        while i < self.words.len()
            invariant
                i <= self.words@.len(),
                exists|j: int| i <= j < self.words@.len()
                    && (#[trigger] self.words@[j])@ == candidate@,
            decreases self.words@.len() - i,
        {
            if self.words[i].same_letters(candidate) {
                proof {
                    assert(self@[i as int] == self.words@[i as int]@);
                }
                return self.words[i];
            }
            i = i + 1;
        }
        proof {
            assert(false);
        }
        *candidate
    }
}

} // verus!
