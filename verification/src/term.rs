//! Terms are compared without regard to case. Two terms are the same when
//! their case-folded forms are equal, and terms are ordered by those forms.

use vstd::prelude::*;
use vstd::string::*;

verus! {

/// The Unicode case folding of `term`, as `unicase` computes it.
pub uninterp spec fn folded(term: Seq<char>) -> Seq<char>;

/// Whether two terms are the same up to case.
pub open spec fn same_term(a: Seq<char>, b: Seq<char>) -> bool {
    folded(a) == folded(b)
}

/// Lexicographic order on keys, character by character, by code point.
pub open spec fn key_before(a: Seq<char>, b: Seq<char>) -> bool
    decreases a.len(),
{
    if b.len() == 0 {
        false
    } else if a.len() == 0 {
        true
    } else if a[0] != b[0] {
        a[0] < b[0]
    } else {
        key_before(a.drop_first(), b.drop_first())
    }
}

/// How one key stands to another in the order of keys.
#[derive(Clone, Copy, Debug, PartialEq, Eq, Structural)]
pub enum KeyOrder {
    Before,
    Same,
    After,
}

/// Calls `unicase::UniCase::new` on `term` and then `to_folded_case` on the
/// result. Trusted: what comes back is the case folding of the term, which
/// is what `unicase` compares terms by.
#[verifier::external_body]
fn folded_text(term: &str) -> (text: String)
    ensures
        text@ == folded(term@),
{
    unicase::UniCase::new(term).to_folded_case()
}

/// The characters of `text`, in order.
pub fn chars_of(text: &str) -> (chars: Vec<char>)
    ensures
        chars@ == text@,
{
    broadcast use vstd::string::group_string_axioms;

    let mut chars: Vec<char> = Vec::new();
    for c in it: text.chars()
        invariant
            it.seq() == text@,
            chars@ == it.seq().take(it.index() as int),
    {
        chars.push(c);
    }
    assert(text@.take(text@.len() as int) == text@);
    chars
}

/// The key under which `term` is stored and looked up.
pub fn fold(term: &str) -> (key: Vec<char>)
    ensures
        key@ == folded(term@),
{
    let text = folded_text(term);
    chars_of(text.as_str())
}

/// Compares two keys in the order of keys.
pub fn key_order(a: &Vec<char>, b: &Vec<char>) -> (order: KeyOrder)
    ensures
        order == KeyOrder::Before <==> key_before(a@, b@),
        order == KeyOrder::Same <==> a@ == b@,
        order == KeyOrder::After <==> key_before(b@, a@),
{
    let mut i: usize = 0;
    proof {
        assert(a@.skip(0) == a@);
        assert(b@.skip(0) == b@);
    }
    while i < a.len() && i < b.len()
        invariant
            i <= a.len(),
            i <= b.len(),
            a@.take(i as int) == b@.take(i as int),
            key_before(a@, b@) == key_before(a@.skip(i as int), b@.skip(i as int)),
            key_before(b@, a@) == key_before(b@.skip(i as int), a@.skip(i as int)),
        decreases a.len() - i,
    {
        let x: char = a[i];
        let y: char = b[i];
        proof {
            assert(a@.skip(i as int)[0] == x);
            assert(b@.skip(i as int)[0] == y);
            assert(a@.skip(i as int).drop_first() == a@.skip(i + 1));
            assert(b@.skip(i as int).drop_first() == b@.skip(i + 1));
        }
        if x != y {
            proof {
                assert(a@[i as int] != b@[i as int]);
            }
            if x < y {
                return KeyOrder::Before;
            } else {
                return KeyOrder::After;
            }
        }
        proof {
            assert(a@.take(i + 1) == a@.take(i as int).push(x));
            assert(b@.take(i + 1) == b@.take(i as int).push(y));
        }
        i += 1;
    }
    proof {
        lemma_key_before_asymmetric(a@.skip(i as int), b@.skip(i as int));
    }
    if i < b.len() {
        proof {
            assert(a@.skip(i as int).len() == 0);
            assert(a@.len() != b@.len());
        }
        KeyOrder::Before
    } else if i < a.len() {
        proof {
            assert(b@.skip(i as int).len() == 0);
            assert(a@.len() != b@.len());
        }
        KeyOrder::After
    } else {
        proof {
            assert(a@.take(i as int) == a@);
            assert(b@.take(i as int) == b@);
        }
        KeyOrder::Same
    }
}

/// No key comes before itself, and of two keys at most one comes before the
/// other.
pub proof fn lemma_key_before_asymmetric(a: Seq<char>, b: Seq<char>)
    ensures
        !(key_before(a, b) && key_before(b, a)),
        !key_before(a, a),
    decreases a.len(),
{
    if a.len() > 0 {
        lemma_key_before_asymmetric(a.drop_first(), a.drop_first());
        if b.len() > 0 && a[0] == b[0] {
            lemma_key_before_asymmetric(a.drop_first(), b.drop_first());
        }
    }
}

/// The order of keys is transitive.
pub proof fn lemma_key_before_transitive(a: Seq<char>, b: Seq<char>, c: Seq<char>)
    requires
        key_before(a, b),
        key_before(b, c),
    ensures
        key_before(a, c),
    decreases a.len(),
{
    if a.len() > 0 && b.len() > 0 && c.len() > 0 && a[0] == b[0] && b[0] == c[0] {
        lemma_key_before_transitive(a.drop_first(), b.drop_first(), c.drop_first());
    }
}

/// Of two different keys one comes before the other.
pub proof fn lemma_key_before_total(a: Seq<char>, b: Seq<char>)
    requires
        a != b,
    ensures
        key_before(a, b) || key_before(b, a),
    decreases a.len(),
{
    if a.len() > 0 && b.len() > 0 && a[0] == b[0] {
        assert(a.drop_first() != b.drop_first()) by {
            if a.drop_first() == b.drop_first() {
                assert(a =~= seq![a[0]] + a.drop_first());
                assert(b =~= seq![b[0]] + b.drop_first());
            }
        }
        lemma_key_before_total(a.drop_first(), b.drop_first());
    } else if a.len() == 0 && b.len() == 0 {
        assert(a =~= b);
    }
}

} // verus!
