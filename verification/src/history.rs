//! What a sequence of writes does to a ledger: the score under a key after
//! the writes is the net effect of the writes to that key, and the term that
//! is shown for it is the first that was written under it.

use vstd::prelude::*;
use crate::ledger::{
    assign, bias_all, distinct, holds, lemma_assign, lemma_bias_all_distinct, net_delta, score,
    shown, Score,
};

verus! {

/// One write to the store.
pub enum Write {
    /// One line is assigned.
    Assign { line: Score },
    /// A batch of biases is added in turn.
    Bias { deltas: Seq<Score> },
}

/// The ledger after one write.
pub open spec fn apply(ledger: Seq<Score>, write: Write) -> Seq<Score> {
    match write {
        Write::Assign { line } => assign(ledger, line),
        Write::Bias { deltas } => bias_all(ledger, deltas),
    }
}

/// The ledger after the writes, made in turn.
pub open spec fn apply_all(ledger: Seq<Score>, writes: Seq<Write>) -> Seq<Score>
    decreases writes.len(),
{
    if writes.len() == 0 {
        ledger
    } else {
        apply(apply_all(ledger, writes.drop_last()), writes.last())
    }
}

/// What the writes make of a score that starts at `start`: an assignment to
/// the key replaces it, a bias for the key is added to it, and writes to
/// other keys leave it.
pub open spec fn net_effect(start: int, writes: Seq<Write>, key: Seq<char>) -> int
    decreases writes.len(),
{
    if writes.len() == 0 {
        start
    } else {
        let before = net_effect(start, writes.drop_last(), key);
        match writes.last() {
            Write::Assign { line } => if line.key == key {
                line.value
            } else {
                before
            },
            Write::Bias { deltas } => before + net_delta(deltas, key),
        }
    }
}

/// The term of the first line of `lines` that has the key.
pub open spec fn first_casing(lines: Seq<Score>, key: Seq<char>) -> Option<Seq<char>>
    decreases lines.len(),
{
    if lines.len() == 0 {
        None
    } else {
        match first_casing(lines.drop_last(), key) {
            Some(casing) => Some(casing),
            None => if lines.last().key == key {
                Some(lines.last().term)
            } else {
                None
            },
        }
    }
}

/// The term under which the writes first write to the key.
pub open spec fn first_written(writes: Seq<Write>, key: Seq<char>) -> Option<Seq<char>>
    decreases writes.len(),
{
    if writes.len() == 0 {
        None
    } else {
        match first_written(writes.drop_last(), key) {
            Some(casing) => Some(casing),
            None => match writes.last() {
                Write::Assign { line } => if line.key == key {
                    Some(line.term)
                } else {
                    None
                },
                Write::Bias { deltas } => first_casing(deltas, key),
            },
        }
    }
}

/// After a batch of biases the score under every key is what it was plus the
/// biases for that key, a key that was held keeps its term, and a new key
/// has the term under which the batch first names it.
pub proof fn lemma_bias_all(ledger: Seq<Score>, deltas: Seq<Score>, key: Seq<char>)
    requires
        distinct(ledger),
    ensures
        distinct(bias_all(ledger, deltas)),
        score(bias_all(ledger, deltas), key) == score(ledger, key) + net_delta(deltas, key),
        shown(bias_all(ledger, deltas), key) == if holds(ledger, key) {
            shown(ledger, key)
        } else {
            first_casing(deltas, key)
        },
    decreases deltas.len(),
{
    lemma_bias_all_distinct(ledger, deltas);
    if deltas.len() > 0 {
        let before = bias_all(ledger, deltas.drop_last());
        let last = deltas.last();
        lemma_bias_all(ledger, deltas.drop_last(), key);
        lemma_assign(
            before,
            Score { key: last.key, term: last.term, value: score(before, last.key) + last.value },
        );
    }
}

/// After any writes, made in turn, the score under a key is the net effect
/// of the writes on the score it had. A key that was held keeps its term, and
/// a new key has the term under which it was first written: the casing first
/// seen stays.
pub proof fn lemma_writes(ledger: Seq<Score>, writes: Seq<Write>, key: Seq<char>)
    requires
        distinct(ledger),
    ensures
        distinct(apply_all(ledger, writes)),
        score(apply_all(ledger, writes), key) == net_effect(score(ledger, key), writes, key),
        shown(apply_all(ledger, writes), key) == if holds(ledger, key) {
            shown(ledger, key)
        } else {
            first_written(writes, key)
        },
    decreases writes.len(),
{
    if writes.len() > 0 {
        let before = apply_all(ledger, writes.drop_last());
        lemma_writes(ledger, writes.drop_last(), key);
        match writes.last() {
            Write::Assign { line } => {
                lemma_assign(before, line);
            },
            Write::Bias { deltas } => {
                lemma_bias_all(before, deltas, key);
            },
        }
    }
}

} // verus!
