//! The ledger as it is held in memory: lines found by their keys, kept in the
//! order in which the keys were first seen. What key a term has is not this
//! module's business: it is handed keys.

use vstd::prelude::*;
use vstd::string::*;
use crate::ledger::{
    agrees, assign, assign_all, bias_all, bias_fits, distinct, holds, lemma_assign,
    lemma_bias_fits_prefix, lemma_slot_is, named_in, score, slot, Score,
};
use crate::ranking::{joined, lemma_place_is, outranks, ranking, rendered};
use crate::term::{key_order, KeyOrder};
use crate::text::{decimal_text, same_text};

verus! {

/// One line as it is handed in and out: the key, the term and the value.
#[derive(Debug)]
pub struct Line {
    pub key: Vec<char>,
    pub term: String,
    pub value: i32,
}

impl DeepView for Line {
    type V = Score;

    open spec fn deep_view(&self) -> Score {
        Score { key: self.key@, term: self.term@, value: self.value as int }
    }
}

impl Clone for Line {
    fn clone(&self) -> (copy: Line)
        ensures
            copy.deep_view() == self.deep_view(),
    {
        Line { key: copy_of(&self.key), term: self.term.clone(), value: self.value }
    }
}

/// A ledger in memory.
#[derive(Debug)]
pub struct Ledger {
    entries: Vec<Line>,
}

impl View for Ledger {
    type V = Seq<Score>;

    closed spec fn view(&self) -> Seq<Score> {
        self.entries.deep_view()
    }
}

impl Ledger {
    #[verifier::type_invariant]
    spec fn well_formed(&self) -> bool {
        distinct(self@)
    }

    /// An empty ledger.
    pub fn new() -> (ledger: Ledger)
        ensures
            ledger@ == Seq::<Score>::empty(),
    {
        let ledger = Ledger { entries: Vec::new() };
        proof {
            assert(ledger@ =~= Seq::<Score>::empty());
        }
        ledger
    }

    /// The index of the line with the key, or the number of lines.
    fn find(&self, key: &Vec<char>) -> (i: usize)
        ensures
            i == slot(self@, key@),
            i <= self@.len(),
            self@.len() == self.entries@.len(),
    {
        let mut i: usize = 0;
        while i < self.entries.len()
            invariant
                i <= self.entries@.len(),
                self@.len() == self.entries@.len(),
                forall|j: int| 0 <= j < i ==> (#[trigger] self@[j]).key != key@,
            ensures
                i < self.entries@.len() ==> self@[i as int].key == key@,
            decreases self.entries@.len() - i,
        {
            proof {
                assert(self@[i as int] == self.entries@[i as int].deep_view());
            }
            if key_order(&self.entries[i].key, key) == KeyOrder::Same {
                break;
            }
            i += 1;
        }
        proof {
            lemma_slot_is(self@, key@, i as int);
        }
        i
    }

    /// The score under the key, zero where it was never seen.
    pub fn get(&self, key: &Vec<char>) -> (value: i32)
        ensures
            value == score(self@, key@),
    {
        let i = self.find(key);
        if i < self.entries.len() {
            proof {
                assert(self@[i as int] == self.entries@[i as int].deep_view());
            }
            self.entries[i].value
        } else {
            0
        }
    }

    /// Assigns the line and returns the score that its key had.
    pub fn set(&mut self, line: Line) -> (prior: i32)
        ensures
            prior == score(old(self)@, line.key@),
            final(self)@ == assign(old(self)@, line.deep_view()),
            distinct(final(self)@),
    {
        let i = self.find(&line.key);
        proof {
            use_type_invariant(&*self);
            lemma_assign(self@, line.deep_view());
        }
        let mut entries: Vec<Line> = Vec::new();
        std::mem::swap(&mut self.entries, &mut entries);
        let ghost before = entries.deep_view();
        let prior = if i < entries.len() {
            proof {
                assert(before[i as int] == entries@[i as int].deep_view());
            }
            let prior = entries[i].value;
            entries[i].value = line.value;
            prior
        } else {
            entries.push(line);
            0
        };
        proof {
            assert(entries.deep_view() =~= assign(before, line.deep_view()));
        }
        std::mem::swap(&mut self.entries, &mut entries);
        prior
    }

    /// Assigns each line in turn.
    pub fn assign_all(&mut self, lines: Vec<Line>)
        ensures
            final(self)@ == assign_all(old(self)@, lines.deep_view()),
            distinct(final(self)@),
    {
        let ghost all = lines.deep_view();
        let mut i: usize = 0;
        while i < lines.len()
            invariant
                i <= lines.len(),
                all == lines.deep_view(),
                self@ == assign_all(old(self)@, all.take(i as int)),
            decreases lines.len() - i,
        {
            proof {
                let upto = all.take(i + 1);
                assert(upto.drop_last() == all.take(i as int));
                assert(upto.last() == all[i as int]);
                assert(all[i as int] == lines@[i as int].deep_view());
            }
            self.set(lines[i].clone());
            i += 1;
        }
        proof {
            assert(all.take(i as int) == all);
            use_type_invariant(&*self);
        }
    }

    /// Adds each bias to the score under its key, in turn.
    pub fn bias_all(&mut self, deltas: Vec<Line>)
        requires
            bias_fits(old(self)@, deltas.deep_view()),
        ensures
            final(self)@ == bias_all(old(self)@, deltas.deep_view()),
            distinct(final(self)@),
    {
        let ghost all = deltas.deep_view();
        let mut i: usize = 0;
        while i < deltas.len()
            invariant
                i <= deltas.len(),
                all == deltas.deep_view(),
                bias_fits(old(self)@, all),
                self@ == bias_all(old(self)@, all.take(i as int)),
            decreases deltas.len() - i,
        {
            proof {
                let upto = all.take(i + 1);
                lemma_bias_fits_prefix(old(self)@, all, i + 1);
                assert(upto.drop_last() == all.take(i as int));
                assert(upto.last() == all[i as int]);
                assert(all[i as int] == deltas@[i as int].deep_view());
            }
            let delta = &deltas[i];
            let now = self.get(&delta.key);
            self.set(
                Line { key: copy_of(&delta.key), term: delta.term.clone(), value: now + delta.value },
            );
            i += 1;
        }
        proof {
            assert(all.take(i as int) == all);
            use_type_invariant(&*self);
        }
    }

    /// Whether the biases can be added in turn with every score staying in
    /// range.
    pub fn fits(&self, deltas: &Vec<Line>) -> (fits: bool)
        ensures
            fits == bias_fits(self@, deltas.deep_view()),
    {
        let ghost all = deltas.deep_view();
        let mut trial = self.clone();
        let mut i: usize = 0;
        while i < deltas.len()
            invariant
                i <= deltas.len(),
                all == deltas.deep_view(),
                bias_fits(self@, all.take(i as int)),
                trial@ == bias_all(self@, all.take(i as int)),
            decreases deltas.len() - i,
        {
            proof {
                let upto = all.take(i + 1);
                assert(upto.drop_last() == all.take(i as int));
                assert(upto.last() == all[i as int]);
                assert(all[i as int] == deltas@[i as int].deep_view());
            }
            let delta = &deltas[i];
            let now = trial.get(&delta.key);
            match now.checked_add(delta.value) {
                Some(sum) => {
                    trial.set(Line { key: copy_of(&delta.key), term: delta.term.clone(), value: sum });
                },
                None => {
                    proof {
                        if bias_fits(self@, all) {
                            lemma_bias_fits_prefix(self@, all, i + 1);
                        }
                    }
                    return false;
                },
            }
            i += 1;
        }
        proof {
            assert(all.take(i as int) == all);
        }
        true
    }

    /// Whether the ledger holds just what `lines` say: a line for the key of
    /// every line of `lines`, with the value given there, and no line whose
    /// term does not occur among the terms of `lines`.
    pub fn agrees(&self, lines: &Vec<Line>) -> (same: bool)
        ensures
            same == agrees(self@, lines.deep_view()),
    {
        let ghost all = lines.deep_view();
        let mut i: usize = 0;
        while i < lines.len()
            invariant
                i <= lines@.len(),
                all == lines.deep_view(),
                forall|k: int|
                    0 <= k < i ==> holds(self@, (#[trigger] all[k]).key) && score(
                        self@,
                        all[k].key,
                    ) == all[k].value,
            decreases lines@.len() - i,
        {
            let at = self.find(&lines[i].key);
            proof {
                assert(all[i as int] == lines@[i as int].deep_view());
                if at < self@.len() {
                    assert(self@[at as int] == self.entries@[at as int].deep_view());
                }
            }
            if at >= self.entries.len() || self.entries[at].value != lines[i].value {
                return false;
            }
            i += 1;
        }
        let mut j: usize = 0;
        while j < self.entries.len()
            invariant
                j <= self.entries@.len(),
                self@.len() == self.entries@.len(),
                all == lines.deep_view(),
                forall|k: int| 0 <= k < j ==> named_in(all, (#[trigger] self@[k]).term),
            decreases self.entries@.len() - j,
        {
            proof {
                assert(self@[j as int] == self.entries@[j as int].deep_view());
            }
            let mut i: usize = 0;
            let mut found = false;
            while i < lines.len() && !found
                invariant
                    i <= lines@.len(),
                    j < self.entries@.len(),
                    all == lines.deep_view(),
                    self@[j as int].term == self.entries@[j as int].term@,
                    found ==> named_in(all, self@[j as int].term),
                    !found ==> forall|k: int|
                        0 <= k < i ==> (#[trigger] all[k]).term != self@[j as int].term,
                decreases lines@.len() - i + if found { 0int } else { 1int },
            {
                proof {
                    assert(all[i as int] == lines@[i as int].deep_view());
                }
                if same_text(lines[i].term.as_str(), self.entries[j].term.as_str()) {
                    found = true;
                } else {
                    i += 1;
                }
            }
            if !found {
                proof {
                    assert(!named_in(all, self@[j as int].term));
                }
                return false;
            }
            j += 1;
        }
        true
    }

    /// The lines, in the order in which their keys were first seen.
    pub fn lines(&self) -> (lines: Vec<Line>)
        ensures
            lines.deep_view() == self@,
            distinct(self@),
    {
        proof {
            use_type_invariant(self);
        }
        let mut lines: Vec<Line> = Vec::new();
        let mut i: usize = 0;
        while i < self.entries.len()
            invariant
                i <= self.entries@.len(),
                lines@.len() == i,
                forall|j: int|
                    0 <= j < i ==> (#[trigger] lines@[j]).deep_view()
                        == self.entries@[j].deep_view(),
            decreases self.entries@.len() - i,
        {
            lines.push(self.entries[i].clone());
            i += 1;
        }
        proof {
            assert(lines.deep_view() =~= self@);
        }
        lines
    }

    /// Whether the line at `a` is shown before the line at `b`.
    fn outranks_at(&self, a: usize, b: usize) -> (yes: bool)
        requires
            a < self@.len(),
            b < self@.len(),
        ensures
            yes == outranks(self@[a as int], self@[b as int]),
    {
        proof {
            assert(self@.len() == self.entries@.len());
            assert(self@[a as int] == self.entries@[a as int].deep_view());
            assert(self@[b as int] == self.entries@[b as int].deep_view());
        }
        let x = &self.entries[a];
        let y = &self.entries[b];
        x.value > y.value || (x.value == y.value && key_order(&x.key, &y.key) == KeyOrder::Before)
    }

    /// The indices of the lines in the order in which they are shown.
    fn ranked_indices(&self) -> (order: Vec<usize>)
        ensures
            order@.len() == self@.len(),
            self@.len() == self.entries@.len(),
            forall|k: int| 0 <= k < order@.len() ==> #[trigger] order@[k] < self@.len(),
            lines_at(self@, order@) == ranking(self@),
    {
        let n: usize = self.entries.len();
        let mut order: Vec<usize> = Vec::new();
        let mut i: usize = 0;
        while i < n
            invariant
                n == self@.len(),
                n == self.entries@.len(),
                i <= n,
                order@.len() == i,
                forall|k: int| 0 <= k < order@.len() ==> #[trigger] order@[k] < n,
                lines_at(self@, order@) == ranking(self@.take(i as int)),
            decreases n - i,
        {
            let ghost before = lines_at(self@, order@);
            let mut p: usize = 0;
            while p < order.len() && !self.outranks_at(i, order[p])
                invariant
                    n == self@.len(),
                    i < n,
                    p <= order@.len(),
                    before == lines_at(self@, order@),
                    forall|k: int| 0 <= k < order@.len() ==> #[trigger] order@[k] < n,
                    forall|j: int| 0 <= j < p ==> !outranks(self@[i as int], #[trigger] before[j]),
                decreases order@.len() - p,
            {
                p += 1;
            }
            proof {
                lemma_place_is(before, self@[i as int], p as int);
                let upto = self@.take(i + 1);
                assert(upto.drop_last() == self@.take(i as int));
                assert(upto.last() == self@[i as int]);
            }
            order.insert(p, i);
            proof {
                assert(lines_at(self@, order@) =~= before.insert(p as int, self@[i as int]));
            }
            i += 1;
        }
        proof {
            assert(self@.take(n as int) == self@);
        }
        order
    }

    /// All scores as text: the highest first, among equal scores the lines
    /// in ascending order of their keys; each as the term, a colon, a space
    /// and the score, with a semicolon and a space between two.
    pub fn render(&self) -> (text: String)
        ensures
            text@ == rendered(self@),
    {
        let order = self.ranked_indices();
        let ghost lines = ranking(self@);
        let mut text = String::new();
        let mut k: usize = 0;
        while k < order.len()
            invariant
                k <= order@.len(),
                order@.len() == self@.len(),
                self@.len() == self.entries@.len(),
                forall|j: int| 0 <= j < order@.len() ==> #[trigger] order@[j] < self@.len(),
                lines == lines_at(self@, order@),
                text@ == joined(lines.take(k as int)),
            decreases order@.len() - k,
        {
            proof {
                reveal_strlit("; ");
                reveal_strlit(": ");
                let upto = lines.take(k + 1);
                assert(upto.drop_last() == lines.take(k as int));
                assert(upto.last() == lines[k as int]);
                assert(lines[k as int] == self@[order@[k as int] as int]);
                assert(self@[order@[k as int] as int] == self.entries@[order@[k as int] as int].deep_view());
            }
            let entry = &self.entries[order[k]];
            if k > 0 {
                text.append("; ");
            }
            text.append(entry.term.as_str());
            text.append(": ");
            let number = decimal_text(entry.value);
            text.append(number.as_str());
            proof {
                assert(text@ =~= joined(lines.take(k + 1)));
            }
            k += 1;
        }
        proof {
            assert(lines.take(k as int) == lines);
        }
        text
    }
}

impl Clone for Ledger {
    /// A ledger of its own with the same lines.
    fn clone(&self) -> (copy: Ledger)
        ensures
            copy@ == self@,
            distinct(copy@),
    {
        let entries = self.lines();
        Ledger { entries }
    }
}

/// The lines of `ledger` at the indices `order`, in that order.
spec fn lines_at(ledger: Seq<Score>, order: Seq<usize>) -> Seq<Score> {
    Seq::new(order.len(), |k: int| ledger[order[k] as int])
}

/// A copy of `chars`.
pub fn copy_of(chars: &Vec<char>) -> (copy: Vec<char>)
    ensures
        copy@ == chars@,
{
    let mut copy: Vec<char> = Vec::new();
    let mut i: usize = 0;
    while i < chars.len()
        invariant
            i <= chars@.len(),
            copy@ == chars@.take(i as int),
        decreases chars@.len() - i,
    {
        copy.push(chars[i]);
        i += 1;
    }
    proof {
        assert(chars@.take(i as int) == chars@);
    }
    copy
}

} // verus!
