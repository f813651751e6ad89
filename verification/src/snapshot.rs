//! What a snapshot gives back. A snapshot lists every line of the store, in
//! no order that counts. A store that is made from such a list has the same
//! score and the same term under every key, and shows the same.

use vstd::prelude::*;
use crate::ledger::{
    assign, assign_all, distinct, holds, lemma_distinct_drop_last, lemma_found_at, lemma_slot,
    lemma_slot_is, score, shown, slot, Score,
};
use crate::ranking::{
    lemma_ranking_permutes, lemma_ranking_ranked, lemma_ranking_unique, ranking, rendered,
};

verus! {

/// The ledger of the store that is made from a record of lines.
pub open spec fn restored(record: Seq<Score>) -> Seq<Score> {
    assign_all(Seq::<Score>::empty(), record)
}

/// Whether `record` lists the lines of `ledger`, each once, in any order.
pub open spec fn records(record: Seq<Score>, ledger: Seq<Score>) -> bool {
    record.to_multiset() == ledger.to_multiset()
}

/// Lines with distinct keys, assigned in turn to an empty ledger, make that
/// very ledger.
pub proof fn lemma_restored_is_the_record(record: Seq<Score>)
    requires
        distinct(record),
    ensures
        restored(record) == record,
    decreases record.len(),
{
    if record.len() == 0 {
        assert(record =~= Seq::<Score>::empty());
    } else {
        let rest = record.drop_last();
        lemma_distinct_drop_last(record);
        lemma_restored_is_the_record(rest);
        lemma_slot_is(rest, record.last().key, rest.len() as int);
        assert(assign(rest, record.last()) =~= record);
    }
}

/// A record of the lines of a ledger with distinct keys has distinct keys
/// too, and every line of the one is a line of the other.
pub proof fn lemma_record_is_distinct(record: Seq<Score>, ledger: Seq<Score>)
    requires
        distinct(ledger),
        records(record, ledger),
    ensures
        distinct(record),
        forall|i: int| 0 <= i < record.len() ==> ledger.contains(#[trigger] record[i]),
        forall|i: int| 0 <= i < ledger.len() ==> record.contains(#[trigger] ledger[i]),
{
    record.to_multiset_ensures();
    ledger.to_multiset_ensures();
    assert(ledger.no_duplicates()) by {
        assert forall|i: int, j: int|
            0 <= i < ledger.len() && 0 <= j < ledger.len() && i != j implies ledger[i]
            != ledger[j] by {
            if i < j {
                assert(ledger[i].key != ledger[j].key);
            } else {
                assert(ledger[j].key != ledger[i].key);
            }
        }
    }
    ledger.lemma_multiset_has_no_duplicates();
    record.lemma_multiset_has_no_duplicates_conv();
    assert forall|i: int| 0 <= i < record.len() implies ledger.contains(#[trigger] record[i]) by {
        assert(record.contains(record[i]));
        assert(ledger.to_multiset().count(record[i]) > 0);
    }
    assert forall|i: int| 0 <= i < ledger.len() implies record.contains(#[trigger] ledger[i]) by {
        assert(ledger.contains(ledger[i]));
        assert(record.to_multiset().count(ledger[i]) > 0);
    }
    assert forall|i: int, j: int| 0 <= i < j < record.len() implies (#[trigger] record[i]).key != (
    #[trigger] record[j]).key by {
        assert(ledger.contains(record[i]));
        assert(ledger.contains(record[j]));
        let a = choose|a: int| 0 <= a < ledger.len() && ledger[a] == record[i];
        let b = choose|b: int| 0 <= b < ledger.len() && ledger[b] == record[j];
        assert(record[i] != record[j]);
        if a < b {
            assert(ledger[a].key != ledger[b].key);
        } else {
            assert(ledger[b].key != ledger[a].key);
        }
    }
}

/// A snapshot gives the store back: made from a record of its lines, in any
/// order, the store has the score and the term it had under every key, and
/// shows the same.
pub proof fn lemma_snapshot_restores(ledger: Seq<Score>, record: Seq<Score>, key: Seq<char>)
    requires
        distinct(ledger),
        records(record, ledger),
    ensures
        distinct(restored(record)),
        score(restored(record), key) == score(ledger, key),
        shown(restored(record), key) == shown(ledger, key),
        rendered(restored(record)) == rendered(ledger),
{
    lemma_record_is_distinct(record, ledger);
    lemma_restored_is_the_record(record);
    lemma_slot(ledger, key);
    lemma_slot(record, key);
    if holds(ledger, key) {
        let at = slot(ledger, key);
        assert(record.contains(ledger[at]));
        let k = choose|k: int| 0 <= k < record.len() && record[k] == ledger[at];
        lemma_found_at(record, k);
    } else if holds(record, key) {
        let k = slot(record, key);
        assert(ledger.contains(record[k]));
        let at = choose|at: int| 0 <= at < ledger.len() && ledger[at] == record[k];
        lemma_found_at(ledger, at);
    }
    lemma_ranking_ranked(record);
    lemma_ranking_permutes(record);
    lemma_ranking_unique(ledger, ranking(record));
}

} // verus!
