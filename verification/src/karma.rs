//! The score store: an integer score per term, where terms are the same up to
//! case and each is shown in the casing it was first seen in.
//!
//! A term is found by its key, which is its case folding. This module folds
//! the terms and hands the keys to the ledger, which does the rest.

use vstd::prelude::*;
use vstd::string::*;
use crate::ledger::{agrees, assign, bias_all, bias_fits, distinct, lemma_assign, score, Score};
use crate::ranking::rendered;
use crate::snapshot::restored;
use crate::store::{Ledger, Line};
use crate::term::{fold, folded};

verus! {

/// The line that gives `term` the value `value`: its key is the folded term.
pub open spec fn line_of(term: Seq<char>, value: int) -> Score {
    Score { key: folded(term), term, value }
}

/// The lines that a vector of terms and numbers stands for.
pub open spec fn lines_of(pairs: Seq<(String, i32)>) -> Seq<Score> {
    Seq::new(pairs.len(), |i: int| line_of(pairs[i].0@, pairs[i].1 as int))
}

/// The terms and values that a vector of borrowed terms and numbers stands
/// for.
pub open spec fn pairs_of(pairs: Seq<(&str, i32)>) -> Seq<(Seq<char>, int)> {
    Seq::new(pairs.len(), |i: int| (pairs[i].0@, pairs[i].1 as int))
}

/// The lines for terms and values, each with its key.
pub open spec fn keyed(pairs: Seq<(Seq<char>, int)>) -> Seq<Score> {
    Seq::new(pairs.len(), |i: int| line_of(pairs[i].0, pairs[i].1))
}

/// The lines that a vector of borrowed terms and numbers stands for.
pub open spec fn deltas_of(pairs: Seq<(&str, i32)>) -> Seq<Score> {
    keyed(pairs_of(pairs))
}

/// Every line is found by the folding of its term.
pub open spec fn consistent(ledger: Seq<Score>) -> bool {
    forall|i: int| 0 <= i < ledger.len() ==> (#[trigger] ledger[i]).key == folded(ledger[i].term)
}

/// What was found where the snapshot of the scores is kept.
#[derive(Debug)]
pub enum Snapshot {
    /// No snapshot file is configured.
    Unconfigured,
    /// The file could not be opened or read.
    Unreadable,
    /// The file does not hold a record of scores.
    Corrupt,
    /// The scores that the file holds: none for a file that is new or empty.
    Scores(Vec<(String, i32)>),
}

/// The score store.
#[derive(Debug)]
pub struct Karma {
    ledger: Ledger,
    persistent: bool,
}

impl View for Karma {
    type V = Seq<Score>;

    closed spec fn view(&self) -> Seq<Score> {
        self.ledger@
    }
}

impl Karma {
    #[verifier::type_invariant]
    spec fn well_formed(&self) -> bool {
        consistent(self@) && distinct(self@)
    }

    /// Whether every change of the store is to be written to its snapshot file.
    pub closed spec fn persistent(&self) -> bool {
        self.persistent
    }

    /// An empty store that keeps no snapshot.
    pub fn new() -> (store: Karma)
        ensures
            store@ == Seq::<Score>::empty(),
            !store.persistent(),
    {
        Karma { ledger: Ledger::new(), persistent: false }
    }

    /// A store that holds `lines`, assigned in turn.
    fn new_inner(lines: Vec<(String, i32)>, persistent: bool) -> (store: Karma)
        ensures
            store@ == restored(lines_of(lines@)),
            consistent(store@),
            distinct(store@),
            store.persistent() == persistent,
    {
        let mut store = Karma { ledger: Ledger::new(), persistent };
        let mut i: usize = 0;
        while i < lines.len()
            invariant
                i <= lines.len(),
                store@ == restored(lines_of(lines@).take(i as int)),
                store.persistent() == persistent,
            decreases lines.len() - i,
        {
            proof {
                let upto = lines_of(lines@).take(i + 1);
                assert(upto.drop_last() == lines_of(lines@).take(i as int));
                assert(upto.last() == lines_of(lines@)[i as int]);
            }
            store.set(lines[i].0.as_str(), lines[i].1);
            i += 1;
        }
        proof {
            assert(lines_of(lines@).take(i as int) == lines_of(lines@));
            use_type_invariant(&store);
        }
        store
    }

    /// The store to start with, given what was found where its snapshot is
    /// kept. A snapshot that was read is taken up line by line, and the store
    /// persists. With no snapshot configured, or one that could not be read
    /// or understood, the store starts empty and does not persist.
    pub fn from_file(found: Snapshot) -> (store: Karma)
        ensures
            match found {
                Snapshot::Scores(lines) => store@ == restored(lines_of(lines@))
                    && store.persistent(),
                _ => store@ == Seq::<Score>::empty() && !store.persistent(),
            },
            consistent(store@),
            distinct(store@),
    {
        match found {
            Snapshot::Scores(lines) => Karma::new_inner(lines, true),
            _ => Karma::new_inner(Vec::new(), false),
        }
    }

    /// A store that holds `pairs`, assigned in turn, and keeps no snapshot.
    pub fn from(pairs: Vec<(&str, i32)>) -> (store: Karma)
        ensures
            store@ == restored(deltas_of(pairs@)),
            consistent(store@),
            distinct(store@),
            !store.persistent(),
    {
        let mut store = Karma::new();
        let mut i: usize = 0;
        while i < pairs.len()
            invariant
                i <= pairs.len(),
                store@ == restored(deltas_of(pairs@).take(i as int)),
                !store.persistent(),
            decreases pairs.len() - i,
        {
            proof {
                let upto = deltas_of(pairs@).take(i + 1);
                assert(upto.drop_last() == deltas_of(pairs@).take(i as int));
                assert(upto.last() == deltas_of(pairs@)[i as int]);
            }
            store.set(pairs[i].0, pairs[i].1);
            i += 1;
        }
        proof {
            assert(deltas_of(pairs@).take(i as int) == deltas_of(pairs@));
            use_type_invariant(&store);
        }
        store
    }

    /// Whether every change of the store is to be written to its snapshot file.
    #[verifier::when_used_as_spec(persistent)]
    pub fn persists(&self) -> (yes: bool)
        ensures
            yes == self.persistent(),
    {
        self.persistent
    }

    /// The score of `term`, zero where it was never seen.
    pub fn get(&self, term: &str) -> (value: i32)
        ensures
            value == score(self@, folded(term@)),
    {
        let key = fold(term);
        self.ledger.get(&key)
    }

    /// Gives `term` the score `new` and returns the score it had.
    pub fn set(&mut self, term: &str, new: i32) -> (prior: i32)
        ensures
            prior == score(old(self)@, folded(term@)),
            final(self)@ == assign(old(self)@, line_of(term@, new as int)),
            consistent(final(self)@),
            distinct(final(self)@),
            final(self).persistent() == old(self).persistent(),
    {
        let line = Line { key: fold(term), term: term.to_owned(), value: new };
        proof {
            use_type_invariant(&*self);
            lemma_assign(self@, line.deep_view());
        }
        let mut ledger = Ledger::new();
        std::mem::swap(&mut self.ledger, &mut ledger);
        let prior = ledger.set(line);
        std::mem::swap(&mut self.ledger, &mut ledger);
        prior
    }

    /// The lines for `biases`, each with its key.
    fn keyed(biases: &Vec<(&str, i32)>) -> (lines: Vec<Line>)
        ensures
            lines.deep_view() == deltas_of(biases@),
    {
        let mut lines: Vec<Line> = Vec::new();
        let mut i: usize = 0;
        while i < biases.len()
            invariant
                i <= biases.len(),
                lines@.len() == i,
                forall|j: int|
                    0 <= j < i ==> (#[trigger] lines@[j]).deep_view() == deltas_of(biases@)[j],
            decreases biases.len() - i,
        {
            let term: &str = biases[i].0;
            lines.push(Line { key: fold(term), term: term.to_owned(), value: biases[i].1 });
            i += 1;
        }
        proof {
            assert(lines.deep_view() =~= deltas_of(biases@));
        }
        lines
    }

    /// Adds each bias of `biases` to the score of its term, in turn.
    pub fn bias_from(&mut self, biases: Vec<(&str, i32)>)
        requires
            bias_fits(old(self)@, deltas_of(biases@)),
        ensures
            final(self)@ == bias_all(old(self)@, deltas_of(biases@)),
            consistent(final(self)@),
            distinct(final(self)@),
            final(self).persistent() == old(self).persistent(),
    {
        let ghost deltas = deltas_of(biases@);
        let mut i: usize = 0;
        while i < biases.len()
            invariant
                i <= biases.len(),
                deltas == deltas_of(biases@),
                bias_fits(old(self)@, deltas),
                self@ == bias_all(old(self)@, deltas.take(i as int)),
                self.persistent() == old(self).persistent(),
            decreases biases.len() - i,
        {
            proof {
                let upto = deltas.take(i + 1);
                crate::ledger::lemma_bias_fits_prefix(old(self)@, deltas, i + 1);
                assert(upto.drop_last() == deltas.take(i as int));
                assert(upto.last() == deltas[i as int]);
            }
            let term: &str = biases[i].0;
            let delta: i32 = biases[i].1;
            let now = self.get(term);
            self.set(term, now + delta);
            i += 1;
        }
        proof {
            assert(deltas.take(i as int) == deltas);
            use_type_invariant(&*self);
        }
    }

    /// Whether `biases` can be added in turn with every score staying in
    /// range.
    pub fn can_bias(&self, biases: &Vec<(&str, i32)>) -> (fits: bool)
        ensures
            fits == bias_fits(self@, deltas_of(biases@)),
    {
        let deltas = Karma::keyed(biases);
        self.ledger.fits(&deltas)
    }

    /// Adds each bias of `biases` to the score of its term, in turn, where
    /// every score stays in range while that is done. Where one would not,
    /// no score is changed. Returns whether the biases were added.
    pub fn try_bias_from(&mut self, biases: Vec<(&str, i32)>) -> (added: bool)
        ensures
            added == bias_fits(old(self)@, deltas_of(biases@)),
            final(self)@ == if added {
                bias_all(old(self)@, deltas_of(biases@))
            } else {
                old(self)@
            },
            consistent(final(self)@),
            distinct(final(self)@),
            final(self).persistent() == old(self).persistent(),
    {
        proof {
            use_type_invariant(&*self);
        }
        if self.can_bias(&biases) {
            self.bias_from(biases);
            true
        } else {
            false
        }
    }

    /// Whether the store holds just what `pairs` say: every term of `pairs`
    /// with the score given there, and no term whose casing does not occur
    /// among them.
    pub fn eq(&self, pairs: &Vec<(&str, i32)>) -> (same: bool)
        ensures
            same == agrees(self@, deltas_of(pairs@)),
    {
        let lines = Karma::keyed(pairs);
        self.ledger.agrees(&lines)
    }

    /// The scores held, each under the casing it was first seen in, in the
    /// order in which the terms were first seen.
    pub fn entries(&self) -> (lines: Vec<(String, i32)>)
        ensures
            lines_of(lines@) == self@,
            consistent(self@),
            distinct(self@),
    {
        proof {
            use_type_invariant(self);
        }
        let held = self.ledger.lines();
        let mut lines: Vec<(String, i32)> = Vec::new();
        let mut i: usize = 0;
        while i < held.len()
            invariant
                i <= held.len(),
                held.deep_view() == self@,
                lines@.len() == i,
                forall|j: int|
                    0 <= j < i ==> (#[trigger] lines@[j]).0@ == self@[j].term && lines@[j].1
                        == self@[j].value,
            decreases held.len() - i,
        {
            proof {
                assert(held.deep_view()[i as int] == held@[i as int].deep_view());
            }
            lines.push((held[i].term.clone(), held[i].value));
            i += 1;
        }
        proof {
            assert(lines_of(lines@) =~= self@);
        }
        lines
    }

    /// All scores as text: the highest first, among equal scores the terms
    /// in ascending order without regard to case; each as the term, a colon,
    /// a space and the score, with a semicolon and a space between two.
    pub fn render(&self) -> (text: String)
        ensures
            text@ == rendered(self@),
    {
        self.ledger.render()
    }
}

impl Clone for Karma {
    /// A store of its own with the same scores.
    fn clone(&self) -> (copy: Karma)
        ensures
            copy@ == self@,
            consistent(copy@),
            distinct(copy@),
            copy.persistent() == self.persistent(),
    {
        proof {
            use_type_invariant(self);
        }
        Karma { ledger: self.ledger.clone(), persistent: self.persistent }
    }
}

/// What a store shows depends on its scores alone: shown again with nothing
/// written in between, it shows the same.
pub proof fn lemma_render_repeats(before: Karma, after: Karma)
    requires
        before@ == after@,
    ensures
        rendered(before@) == rendered(after@),
{
}

} // verus!
