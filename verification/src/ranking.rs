//! The order in which scores are shown: the highest score first, and among
//! equal scores the lines in ascending order of their keys. Each line is
//! shown with its term.

use vstd::prelude::*;
use vstd::seq_lib::{to_multiset_build, to_multiset_insert, to_multiset_remove};
use crate::ledger::{distinct, lemma_distinct_drop_last, Score};
use crate::text::decimal;
use crate::term::{
    key_before, lemma_key_before_asymmetric, lemma_key_before_total,
    lemma_key_before_transitive,
};

verus! {

/// Whether line `a` is shown before line `b`.
pub open spec fn outranks(a: Score, b: Score) -> bool {
    a.value > b.value || (a.value == b.value && key_before(a.key, b.key))
}

/// Whether every line of `lines` is shown before all that follow it.
pub open spec fn ranked(lines: Seq<Score>) -> bool {
    forall|i: int, j: int| 0 <= i < j < lines.len() ==> outranks(#[trigger] lines[i], #[trigger] lines[j])
}

/// Where `line` goes among `lines`: before the first line that it outranks,
/// or at the end.
pub open spec fn place(lines: Seq<Score>, line: Score) -> int
    decreases lines.len(),
{
    if lines.len() == 0 {
        0
    } else if outranks(line, lines[0]) {
        0
    } else {
        1 + place(lines.drop_first(), line)
    }
}

/// The lines of `ledger` in the order in which they are shown.
pub open spec fn ranking(ledger: Seq<Score>) -> Seq<Score>
    decreases ledger.len(),
{
    if ledger.len() == 0 {
        Seq::<Score>::empty()
    } else {
        let before = ranking(ledger.drop_last());
        before.insert(place(before, ledger.last()), ledger.last())
    }
}

/// One line as it is shown: the term, a colon and a space, and the score.
pub open spec fn line_text(line: Score) -> Seq<char> {
    line.term + seq![':', ' '] + decimal(line.value)
}

/// The texts of `lines`, with a semicolon and a space between each two.
pub open spec fn joined(lines: Seq<Score>) -> Seq<char>
    decreases lines.len(),
{
    if lines.len() == 0 {
        Seq::<char>::empty()
    } else if lines.len() == 1 {
        line_text(lines[0])
    } else {
        joined(lines.drop_last()) + seq![';', ' '] + line_text(lines.last())
    }
}

/// The text that shows a whole ledger.
pub open spec fn rendered(ledger: Seq<Score>) -> Seq<char> {
    joined(ranking(ledger))
}

/// Of two lines with different keys one is shown before the other, never
/// both, and the order is transitive.
pub proof fn lemma_outranks_is_an_order(a: Score, b: Score, c: Score)
    ensures
        !outranks(a, a),
        !(outranks(a, b) && outranks(b, a)),
        outranks(a, b) && outranks(b, c) ==> outranks(a, c),
        a.key != b.key ==> outranks(a, b) || outranks(b, a),
{
    lemma_key_before_asymmetric(a.key, b.key);
    lemma_key_before_asymmetric(a.key, a.key);
    if outranks(a, b) && outranks(b, c) && a.value == b.value && b.value == c.value {
        lemma_key_before_transitive(a.key, b.key, c.key);
    }
    if a.key != b.key {
        lemma_key_before_total(a.key, b.key);
    }
}

/// What `place` finds: `line` outranks the line at its place, and none
/// before it.
pub proof fn lemma_place(lines: Seq<Score>, line: Score)
    ensures
        0 <= place(lines, line) <= lines.len(),
        place(lines, line) < lines.len() ==> outranks(line, lines[place(lines, line)]),
        forall|j: int| 0 <= j < place(lines, line) ==> !outranks(line, #[trigger] lines[j]),
    decreases lines.len(),
{
    if lines.len() > 0 && !outranks(line, lines[0]) {
        let rest = lines.drop_first();
        lemma_place(rest, line);
        assert forall|j: int| 0 <= j < place(lines, line) implies !outranks(
            line,
            #[trigger] lines[j],
        ) by {
            if j > 0 {
                assert(lines[j] == rest[j - 1]);
            }
        }
    }
}

/// An index whose line `line` outranks, with none before it that it
/// outranks, is its place.
pub proof fn lemma_place_is(lines: Seq<Score>, line: Score, i: int)
    requires
        0 <= i <= lines.len(),
        i < lines.len() ==> outranks(line, lines[i]),
        forall|j: int| 0 <= j < i ==> !outranks(line, #[trigger] lines[j]),
    ensures
        place(lines, line) == i,
{
    lemma_place(lines, line);
    let p = place(lines, line);
    if p < i {
        assert(!outranks(line, lines[p]));
    } else if i < p {
        assert(!outranks(line, lines[i]));
    }
}

/// A line put at its place among ranked lines, none of which has its key,
/// leaves them ranked.
pub proof fn lemma_insert_keeps_ranked(lines: Seq<Score>, line: Score)
    requires
        ranked(lines),
        forall|j: int| 0 <= j < lines.len() ==> line.key != (#[trigger] lines[j]).key,
    ensures
        ranked(lines.insert(place(lines, line), line)),
{
    let p = place(lines, line);
    lemma_place(lines, line);
    let after = lines.insert(p, line);
    assert forall|i: int, j: int| 0 <= i < j < after.len() implies outranks(
        #[trigger] after[i],
        #[trigger] after[j],
    ) by {
        if j < p {
            assert(after[i] == lines[i] && after[j] == lines[j]);
        } else if j == p {
            assert(after[i] == lines[i] && after[j] == line);
            lemma_outranks_is_an_order(line, lines[i], line);
        } else if i < p {
            assert(after[i] == lines[i] && after[j] == lines[j - 1]);
        } else if i == p {
            assert(after[i] == line && after[j] == lines[j - 1]);
            if j - 1 > p {
                lemma_outranks_is_an_order(line, lines[p], lines[j - 1]);
            }
        } else {
            assert(after[i] == lines[i - 1] && after[j] == lines[j - 1]);
        }
    }
}

/// The ranking holds the lines of the ledger, each as often as the ledger.
pub proof fn lemma_ranking_permutes(ledger: Seq<Score>)
    ensures
        ranking(ledger).to_multiset() == ledger.to_multiset(),
        ranking(ledger).len() == ledger.len(),
    decreases ledger.len(),
{
    if ledger.len() > 0 {
        let before = ranking(ledger.drop_last());
        lemma_ranking_permutes(ledger.drop_last());
        lemma_place(before, ledger.last());
        to_multiset_insert(before, place(before, ledger.last()), ledger.last());
        to_multiset_build(ledger.drop_last(), ledger.last());
        assert(ledger.drop_last().push(ledger.last()) =~= ledger);
        assert(ranking(ledger).to_multiset() =~= ledger.to_multiset());
    } else {
        assert(ledger =~= Seq::<Score>::empty());
    }
}

/// The ranking of a ledger of distinct keys is ranked: scores descend, and
/// among equal scores the keys ascend.
pub proof fn lemma_ranking_ranked(ledger: Seq<Score>)
    requires
        distinct(ledger),
    ensures
        ranked(ranking(ledger)),
    decreases ledger.len(),
{
    if ledger.len() > 0 {
        let rest = ledger.drop_last();
        let before = ranking(rest);
        lemma_distinct_drop_last(ledger);
        lemma_ranking_ranked(rest);
        lemma_ranking_permutes(rest);
        assert forall|j: int| 0 <= j < before.len() implies ledger.last().key != (
        #[trigger] before[j]).key by {
            before.to_multiset_ensures();
            rest.to_multiset_ensures();
            assert(before.contains(before[j]));
            assert(rest.to_multiset().count(before[j]) > 0);
            assert(rest.contains(before[j]));
            let k = choose|k: int| 0 <= k < rest.len() && rest[k] == before[j];
            assert(rest[k].key != ledger.last().key);
        }
        lemma_insert_keeps_ranked(before, ledger.last());
    }
}

/// Ranked lines that hold what a ledger holds are its ranking: there is one
/// order in which a ledger is shown.
pub proof fn lemma_ranking_unique(ledger: Seq<Score>, lines: Seq<Score>)
    requires
        distinct(ledger),
        ranked(lines),
        lines.to_multiset() == ledger.to_multiset(),
    ensures
        lines == ranking(ledger),
{
    lemma_ranking_ranked(ledger);
    lemma_ranking_permutes(ledger);
    lemma_ranked_equal(lines, ranking(ledger));
}

/// Two ranked sequences that hold the same lines are equal.
proof fn lemma_ranked_equal(a: Seq<Score>, b: Seq<Score>)
    requires
        ranked(a),
        ranked(b),
        a.to_multiset() == b.to_multiset(),
    ensures
        a == b,
    decreases a.len(),
{
    a.to_multiset_ensures();
    b.to_multiset_ensures();
    if a.len() == 0 {
        assert(a =~= b);
    } else {
        assert(a.contains(a[0]));
        assert(b.to_multiset().count(a[0]) > 0);
        assert(b.contains(a[0]));
        let k = choose|k: int| 0 <= k < b.len() && b[k] == a[0];
        assert(b.contains(b[0]));
        assert(a.to_multiset().count(b[0]) > 0);
        assert(a.contains(b[0]));
        let m = choose|m: int| 0 <= m < a.len() && a[m] == b[0];
        lemma_outranks_is_an_order(a[0], b[0], a[0]);
        assert(k == 0) by {
            if k > 0 {
                assert(outranks(b[0], b[k]));
                if m > 0 {
                    assert(outranks(a[0], a[m]));
                }
            }
        }
        to_multiset_remove(a, 0);
        to_multiset_remove(b, 0);
        assert(a.remove(0) == a.drop_first());
        assert(b.remove(0) == b.drop_first());
        assert(ranked(a.drop_first())) by {
            assert forall|i: int, j: int| 0 <= i < j < a.drop_first().len() implies outranks(
                #[trigger] a.drop_first()[i],
                #[trigger] a.drop_first()[j],
            ) by {
                assert(a.drop_first()[i] == a[i + 1] && a.drop_first()[j] == a[j + 1]);
            }
        }
        assert(ranked(b.drop_first())) by {
            assert forall|i: int, j: int| 0 <= i < j < b.drop_first().len() implies outranks(
                #[trigger] b.drop_first()[i],
                #[trigger] b.drop_first()[j],
            ) by {
                assert(b.drop_first()[i] == b[i + 1] && b.drop_first()[j] == b[j + 1]);
            }
        }
        lemma_ranked_equal(a.drop_first(), b.drop_first());
        assert(a =~= seq![a[0]] + a.drop_first());
        assert(b =~= seq![b[0]] + b.drop_first());
    }
}

} // verus!
