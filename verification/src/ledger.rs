//! The mathematical model of the score store: a ledger is a sequence of
//! lines in the order in which their terms were first seen. Each line has the
//! key that its term is found by, the term in the casing it was first seen
//! in, and the score. No two lines have the same key.

use vstd::prelude::*;

verus! {

/// One line of a ledger. In a batch of biases the value is the amount to
/// add.
pub struct Score {
    pub key: Seq<char>,
    pub term: Seq<char>,
    pub value: int,
}

/// The least index of `ledger` that has the key, or the length of `ledger`
/// where none has.
pub open spec fn slot(ledger: Seq<Score>, key: Seq<char>) -> int
    decreases ledger.len(),
{
    if ledger.len() == 0 {
        0
    } else if ledger[0].key == key {
        0
    } else {
        1 + slot(ledger.drop_first(), key)
    }
}

/// Whether `ledger` has a line for the key.
pub open spec fn holds(ledger: Seq<Score>, key: Seq<char>) -> bool {
    slot(ledger, key) < ledger.len()
}

/// The score under the key: zero for a key never seen.
pub open spec fn score(ledger: Seq<Score>, key: Seq<char>) -> int {
    if holds(ledger, key) {
        ledger[slot(ledger, key)].value
    } else {
        0
    }
}

/// The term that is shown for the key: that of the line that has the key.
pub open spec fn shown(ledger: Seq<Score>, key: Seq<char>) -> Option<Seq<char>> {
    if holds(ledger, key) {
        Some(ledger[slot(ledger, key)].term)
    } else {
        None
    }
}

/// No two lines have the same key.
pub open spec fn distinct(ledger: Seq<Score>) -> bool {
    forall|i: int, j: int|
        0 <= i < j < ledger.len() ==> (#[trigger] ledger[i]).key != (#[trigger] ledger[j]).key
}

/// The ledger after `line` is assigned: the line that has its key keeps its
/// term and its place and takes the value, and a line with a new key is added
/// at the end.
pub open spec fn assign(ledger: Seq<Score>, line: Score) -> Seq<Score> {
    let i = slot(ledger, line.key);
    if i < ledger.len() {
        ledger.update(i, Score { key: ledger[i].key, term: ledger[i].term, value: line.value })
    } else {
        ledger.push(line)
    }
}

/// The ledger after the value of `delta` is added to the score under its
/// key.
pub open spec fn bias(ledger: Seq<Score>, delta: Score) -> Seq<Score> {
    assign(
        ledger,
        Score { key: delta.key, term: delta.term, value: score(ledger, delta.key) + delta.value },
    )
}

/// The ledger after each line of `lines` is assigned in turn.
pub open spec fn assign_all(ledger: Seq<Score>, lines: Seq<Score>) -> Seq<Score>
    decreases lines.len(),
{
    if lines.len() == 0 {
        ledger
    } else {
        assign(assign_all(ledger, lines.drop_last()), lines.last())
    }
}

/// The ledger after each bias of `deltas` is added in turn.
pub open spec fn bias_all(ledger: Seq<Score>, deltas: Seq<Score>) -> Seq<Score>
    decreases deltas.len(),
{
    if deltas.len() == 0 {
        ledger
    } else {
        bias(bias_all(ledger, deltas.drop_last()), deltas.last())
    }
}

/// Whether `value` can be held in a score.
pub open spec fn in_range(value: int) -> bool {
    i32::MIN <= value <= i32::MAX
}

/// Whether every score stays in range while `deltas` are added in turn.
pub open spec fn bias_fits(ledger: Seq<Score>, deltas: Seq<Score>) -> bool
    decreases deltas.len(),
{
    deltas.len() == 0 || {
        &&& bias_fits(ledger, deltas.drop_last())
        &&& in_range(
            score(bias_all(ledger, deltas.drop_last()), deltas.last().key) + deltas.last().value,
        )
    }
}

/// The sum of the biases of `deltas` that are for the key.
pub open spec fn net_delta(deltas: Seq<Score>, key: Seq<char>) -> int
    decreases deltas.len(),
{
    if deltas.len() == 0 {
        0
    } else {
        net_delta(deltas.drop_last(), key) + if deltas.last().key == key {
            deltas.last().value
        } else {
            0
        }
    }
}

/// Whether `ledger` holds just what `lines` say: a line for the key of every
/// line of `lines`, with the value given there, and no line whose term does
/// not occur among the terms of `lines`.
pub open spec fn agrees(ledger: Seq<Score>, lines: Seq<Score>) -> bool {
    &&& forall|i: int|
        0 <= i < lines.len() ==> holds(ledger, (#[trigger] lines[i]).key) && score(
            ledger,
            lines[i].key,
        ) == lines[i].value
    &&& forall|j: int| 0 <= j < ledger.len() ==> named_in(lines, (#[trigger] ledger[j]).term)
}

/// Whether some line of `lines` has exactly the term `term`.
pub open spec fn named_in(lines: Seq<Score>, term: Seq<char>) -> bool {
    exists|i: int| 0 <= i < lines.len() && (#[trigger] lines[i]).term == term
}

/// What `slot` finds: the line at the slot has the key, and no line before
/// it has.
pub proof fn lemma_slot(ledger: Seq<Score>, key: Seq<char>)
    ensures
        0 <= slot(ledger, key) <= ledger.len(),
        holds(ledger, key) ==> ledger[slot(ledger, key)].key == key,
        forall|j: int| 0 <= j < slot(ledger, key) ==> (#[trigger] ledger[j]).key != key,
    decreases ledger.len(),
{
    if ledger.len() > 0 && ledger[0].key != key {
        let rest = ledger.drop_first();
        lemma_slot(rest, key);
        assert forall|j: int| 0 <= j < slot(ledger, key) implies (#[trigger] ledger[j]).key
            != key by {
            if j > 0 {
                assert(ledger[j] == rest[j - 1]);
            }
        }
    }
}

/// An index that has the key, with none before it that has, is the slot.
pub proof fn lemma_slot_is(ledger: Seq<Score>, key: Seq<char>, i: int)
    requires
        0 <= i <= ledger.len(),
        i < ledger.len() ==> ledger[i].key == key,
        forall|j: int| 0 <= j < i ==> (#[trigger] ledger[j]).key != key,
    ensures
        slot(ledger, key) == i,
{
    lemma_slot(ledger, key);
    let s = slot(ledger, key);
    if s < i {
        assert(ledger[s].key != key);
    } else if i < s {
        assert(ledger[i].key != key);
    }
}

/// In a ledger of distinct keys a line is found at its own index.
pub proof fn lemma_found_at(ledger: Seq<Score>, i: int)
    requires
        distinct(ledger),
        0 <= i < ledger.len(),
    ensures
        slot(ledger, ledger[i].key) == i,
{
    lemma_slot_is(ledger, ledger[i].key, i);
}

/// Assigning keeps the keys distinct, keeps every line that was there in its
/// place and with its term, and changes the score under the assigned key
/// alone. A key that was not held is held from then on, with the term it was
/// assigned with.
pub proof fn lemma_assign(ledger: Seq<Score>, line: Score)
    requires
        distinct(ledger),
    ensures
        distinct(assign(ledger, line)),
        assign(ledger, line).len() == if holds(ledger, line.key) {
            ledger.len()
        } else {
            ledger.len() + 1
        },
        forall|i: int|
            0 <= i < ledger.len() ==> (#[trigger] assign(ledger, line)[i]).key == ledger[i].key
                && assign(ledger, line)[i].term == ledger[i].term,
        forall|key: Seq<char>| #[trigger]
            score(assign(ledger, line), key) == if key == line.key {
                line.value
            } else {
                score(ledger, key)
            },
        forall|key: Seq<char>| #[trigger]
            shown(assign(ledger, line), key) == if holds(ledger, key) {
                shown(ledger, key)
            } else if key == line.key {
                Some(line.term)
            } else {
                None
            },
{
    let after = assign(ledger, line);
    let i = slot(ledger, line.key);
    lemma_slot(ledger, line.key);
    assert forall|a: int, b: int| 0 <= a < b < after.len() implies (#[trigger] after[a]).key != (
    #[trigger] after[b]).key by {
        if b < ledger.len() {
            assert(after[a].key == ledger[a].key);
            assert(after[b].key == ledger[b].key);
        } else {
            assert(after[b].key == line.key);
            assert(after[a].key == ledger[a].key);
        }
    }
    lemma_slot_is(after, line.key, i);
    assert forall|key: Seq<char>| #[trigger]
        score(after, key) == if key == line.key {
            line.value
        } else {
            score(ledger, key)
        } by {
        lemma_same_slot(ledger, line, key);
    }
    assert forall|key: Seq<char>| #[trigger]
        shown(after, key) == if holds(ledger, key) {
            shown(ledger, key)
        } else if key == line.key {
            Some(line.term)
        } else {
            None
        } by {
        lemma_same_slot(ledger, line, key);
    }
}

/// Assigning leaves every key where it was found, and a new key is found at
/// the line added for it.
proof fn lemma_same_slot(ledger: Seq<Score>, line: Score, key: Seq<char>)
    ensures
        slot(assign(ledger, line), key) == if holds(ledger, key) || key == line.key {
            slot(ledger, key)
        } else {
            assign(ledger, line).len() as int
        },
        holds(assign(ledger, line), key) == (holds(ledger, key) || key == line.key),
        score(assign(ledger, line), key) == if key == line.key {
            line.value
        } else {
            score(ledger, key)
        },
        shown(assign(ledger, line), key) == if holds(ledger, key) {
            shown(ledger, key)
        } else if key == line.key {
            Some(line.term)
        } else {
            None
        },
{
    let after = assign(ledger, line);
    lemma_slot(ledger, line.key);
    lemma_slot(ledger, key);
    let o = slot(ledger, key);
    if holds(ledger, key) || key == line.key {
        assert forall|j: int| 0 <= j < o implies (#[trigger] after[j]).key != key by {
            assert(after[j].key == ledger[j].key);
        }
        assert(after[o].key == key);
        lemma_slot_is(after, key, o);
        assert(score(after, key) == after[o].value);
        assert(shown(after, key) == Some(after[o].term));
    } else {
        assert forall|j: int| 0 <= j < after.len() implies (#[trigger] after[j]).key != key by {
            if j < ledger.len() {
                assert(after[j].key == ledger[j].key);
            }
        }
        lemma_slot_is(after, key, after.len() as int);
    }
}

/// A ledger without its last line has distinct keys where the ledger has,
/// and none of them is the key of the last line.
pub proof fn lemma_distinct_drop_last(ledger: Seq<Score>)
    requires
        distinct(ledger),
        ledger.len() > 0,
    ensures
        distinct(ledger.drop_last()),
        forall|j: int|
            0 <= j < ledger.len() - 1 ==> (#[trigger] ledger.drop_last()[j]).key
                != ledger.last().key,
{
    let rest = ledger.drop_last();
    assert forall|i: int, j: int| 0 <= i < j < rest.len() implies (#[trigger] rest[i]).key != (
    #[trigger] rest[j]).key by {
        assert(rest[i] == ledger[i] && rest[j] == ledger[j]);
    }
    assert forall|j: int| 0 <= j < ledger.len() - 1 implies (#[trigger] rest[j]).key
        != ledger.last().key by {
        assert(rest[j] == ledger[j]);
        assert(ledger[j].key != ledger[ledger.len() - 1].key);
    }
}

/// Assigning line by line keeps the keys distinct.
pub proof fn lemma_assign_all_distinct(ledger: Seq<Score>, lines: Seq<Score>)
    requires
        distinct(ledger),
    ensures
        distinct(assign_all(ledger, lines)),
    decreases lines.len(),
{
    if lines.len() > 0 {
        lemma_assign_all_distinct(ledger, lines.drop_last());
        lemma_assign(assign_all(ledger, lines.drop_last()), lines.last());
    }
}

/// Adding bias by bias keeps the keys distinct.
pub proof fn lemma_bias_all_distinct(ledger: Seq<Score>, deltas: Seq<Score>)
    requires
        distinct(ledger),
    ensures
        distinct(bias_all(ledger, deltas)),
    decreases deltas.len(),
{
    if deltas.len() > 0 {
        let before = bias_all(ledger, deltas.drop_last());
        let last = deltas.last();
        lemma_bias_all_distinct(ledger, deltas.drop_last());
        lemma_assign(
            before,
            Score { key: last.key, term: last.term, value: score(before, last.key) + last.value },
        );
    }
}

/// A batch that fits does so up to each of its biases.
pub proof fn lemma_bias_fits_prefix(ledger: Seq<Score>, deltas: Seq<Score>, n: int)
    requires
        bias_fits(ledger, deltas),
        0 <= n <= deltas.len(),
    ensures
        bias_fits(ledger, deltas.take(n)),
    decreases deltas.len(),
{
    if n == deltas.len() {
        assert(deltas.take(n) == deltas);
    } else {
        assert(deltas.take(n) == deltas.drop_last().take(n));
        lemma_bias_fits_prefix(ledger, deltas.drop_last(), n);
    }
}

} // verus!
