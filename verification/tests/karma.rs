use gertrude::karma::{Karma, Snapshot};

#[test]
fn test_display() {
    let k = Karma::from(vec![("bacon", 1), ("blɸwback", -1), ("rust", 666), ("LISP", -666)]);
    assert_eq!(k.render(), "rust: 666; bacon: 1; blɸwback: -1; LISP: -666");
}

#[test]
fn test_karma_ingest() {
    let cases: Vec<(Vec<Vec<(&str, i32)>>, Vec<(&str, i32)>)> = vec![
        (vec![vec![]], vec![]),
        (vec![vec![("bacon", 1)]], vec![("bacon", 1)]),
        (
            vec![vec![("bacon", 1), ("bacon", 1), ("mt", 1), ("bb", -1)]],
            vec![("bacon", 2), ("mt", 1), ("bb", -1)],
        ),
        (vec![vec![("BaCoN", 1), ("bAcOn", 1), ("bacon", 1), ("BACON", 1)]], vec![("BaCoN", 4)]),
        (vec![vec![("blɸwback", 1)]], vec![("blɸwback", 1)]),
        (vec![vec![("foo bar", 1)]], vec![("foo bar", 1)]),
        (
            vec![vec![("foo", 1), ("foo bar", 1), ("bar", 1)]],
            vec![("foo bar", 1), ("foo", 1), ("bar", 1)],
        ),
        (vec![vec![("💩", 1)]], vec![("💩", 1)]),
        (vec![vec![("bacon", 1)], vec![("bacon", 1)]], vec![("bacon", 2)]),
        (vec![vec![("bacon", 1)], vec![("bacon", -1)]], vec![("bacon", 0)]),
    ];

    for case in cases {
        let mut k = Karma::new();
        for t in case.0 {
            assert!(k.can_bias(&t));
            k.bias_from(t);
        }
        assert!(k.eq(&case.1));
    }
}

#[test]
fn batch_accumulates_in_order_without_regard_to_case() {
    let mut k = Karma::new();
    let batch = vec![("bacon", 1), ("bacon", 1), ("mt", 1), ("bb", -1)];
    assert!(k.can_bias(&batch));
    k.bias_from(batch);
    assert_eq!(k.get("bacon"), 2);
    assert_eq!(k.get("BACON"), 2);
    assert_eq!(k.get("mt"), 1);
    assert_eq!(k.get("bb"), -1);
    assert_eq!(k.get("unseen"), 0);
}

#[test]
fn set_returns_the_prior_score() {
    let mut k = Karma::new();
    assert_eq!(k.set("rust", 666), 0);
    assert_eq!(k.set("rust", 612), 666);
    assert_eq!(k.get("rust"), 612);
    assert_eq!(k.get("RUST"), 612);
}

#[test]
fn first_casing_is_kept() {
    let mut k = Karma::new();
    k.set("BaCoN", 1);
    k.set("bacon", 5);
    k.bias_from(vec![("BACON", 2)]);
    assert_eq!(k.entries(), vec![("BaCoN".to_string(), 7)]);
    assert_eq!(k.render(), "BaCoN: 7");
}

#[test]
fn folding_is_unicode_aware() {
    let mut k = Karma::new();
    k.set("Maße", 3);
    assert_eq!(k.get("MASSE"), 3);
    assert_eq!(k.get("mase"), 0);
    k.set("ΣΤΙΓΜΑΣ", 4);
    assert_eq!(k.get("στιγμας"), 4);
}

#[test]
fn a_bias_of_zero_creates_the_term() {
    let mut k = Karma::new();
    k.bias_from(vec![("idle", 0)]);
    assert_eq!(k.entries(), vec![("idle".to_string(), 0)]);
    assert!(k.eq(&vec![("idle", 0)]));
    assert!(!k.eq(&vec![]));
}

#[test]
fn net_effect_of_mixed_writes() {
    let mut k = Karma::new();
    k.bias_from(vec![("a", 2), ("B", 3), ("A", 4)]);
    k.set("b", 10);
    k.bias_from(vec![("b", -1), ("c", 1)]);
    k.set("A", -5);
    k.bias_from(vec![("a", 1)]);
    assert_eq!(k.get("a"), -4);
    assert_eq!(k.get("b"), 9);
    assert_eq!(k.get("c"), 1);
    assert_eq!(
        k.entries(),
        vec![("a".to_string(), -4), ("B".to_string(), 9), ("c".to_string(), 1)]
    );
}

#[test]
fn render_orders_by_score_then_by_term() {
    let k = Karma::from(vec![("pear", 2), ("Apple", 2), ("zebra", 7), ("banana", 2), ("kiwi", -3)]);
    assert_eq!(k.render(), "zebra: 7; Apple: 2; banana: 2; pear: 2; kiwi: -3");
    assert_eq!(k.render(), k.render());
}

#[test]
fn render_of_nothing_is_empty() {
    assert_eq!(Karma::new().render(), "");
}

#[test]
fn render_writes_the_extremes() {
    let k = Karma::from(vec![("low", i32::MIN), ("high", i32::MAX), ("nil", 0), ("ten", 10)]);
    assert_eq!(k.render(), "high: 2147483647; ten: 10; nil: 0; low: -2147483648");
}

#[test]
fn a_batch_that_overflows_does_not_fit() {
    let mut k = Karma::new();
    k.set("top", i32::MAX);
    assert!(!k.can_bias(&vec![("top", 1)]));
    assert!(!k.can_bias(&vec![("other", 1), ("TOP", 1), ("top", -5)]));
    assert!(k.can_bias(&vec![("top", -1), ("top", 1)]));
    assert_eq!(k.get("top"), i32::MAX);
    assert_eq!(k.entries().len(), 1);
}

#[test]
fn from_file_takes_up_what_was_read() {
    let k = Karma::from_file(Snapshot::Scores(vec![
        ("rust".to_string(), 3),
        ("Rust".to_string(), 5),
        ("go".to_string(), 1),
    ]));
    assert!(k.persists());
    assert_eq!(k.entries(), vec![("rust".to_string(), 5), ("go".to_string(), 1)]);
}

#[test]
fn from_file_without_a_snapshot_is_volatile() {
    for found in [Snapshot::Unconfigured, Snapshot::Unreadable, Snapshot::Corrupt] {
        let k = Karma::from_file(found);
        assert!(!k.persists());
        assert!(k.entries().is_empty());
    }
    let empty = Karma::from_file(Snapshot::Scores(vec![]));
    assert!(empty.persists());
    assert!(empty.entries().is_empty());
    assert!(!Karma::new().persists());
}

#[test]
fn eq_wants_the_stored_casing() {
    let k = Karma::from(vec![("BaCoN", 4)]);
    assert!(k.eq(&vec![("BaCoN", 4)]));
    assert!(!k.eq(&vec![("bacon", 4)]));
    assert!(!k.eq(&vec![("BaCoN", 3)]));
    assert!(!k.eq(&vec![("BaCoN", 4), ("eggs", 0)]));
    assert!(k.eq(&vec![("BaCoN", 4), ("bacon", 4)]));
}

#[test]
fn a_snapshot_restores_the_store_in_any_order() {
    let mut k = Karma::new();
    k.bias_from(vec![("Bacon", 2), ("mt", 1), ("bb", -1), ("eggs", 2), ("SPAM", 0)]);
    k.set("bacon", 7);
    let lines = k.entries();
    let mut orders = vec![lines.clone()];
    let mut turned = lines.clone();
    turned.reverse();
    orders.push(turned);
    let mut rotated = lines.clone();
    rotated.rotate_left(2);
    orders.push(rotated);
    for record in orders {
        let restored = Karma::from_file(Snapshot::Scores(record));
        assert!(restored.persists());
        for term in ["bacon", "BACON", "mt", "bb", "eggs", "spam", "unseen"] {
            assert_eq!(restored.get(term), k.get(term));
        }
        assert_eq!(restored.render(), k.render());
        assert_eq!(restored.render(), "Bacon: 7; eggs: 2; mt: 1; SPAM: 0; bb: -1");
    }
    assert_eq!(Karma::from_file(Snapshot::Scores(lines.clone())).entries(), lines);
}

#[test]
fn a_clone_is_a_store_of_its_own() {
    let mut k = Karma::from(vec![("a", 1)]);
    let then = k.clone();
    k.set("a", 2);
    k.set("b", 3);
    assert_eq!(then.entries(), vec![("a".to_string(), 1)]);
    assert_eq!(k.entries(), vec![("a".to_string(), 2), ("b".to_string(), 3)]);
    assert_eq!(then.persists(), k.persists());
}

#[test]
fn ties_are_ordered_by_the_folded_term() {
    let k = Karma::from(vec![("b", 1), ("C", 1), ("a", 1), ("Maße", 1), ("masse2", 1), ("Z", 1), ("_", 1)]);
    assert_eq!(k.render(), "_: 1; a: 1; b: 1; C: 1; Maße: 1; masse2: 1; Z: 1");
}

#[test]
fn a_batch_is_added_whole_or_not_at_all() {
    let mut k = Karma::from(vec![("top", i32::MAX), ("low", 3)]);
    assert!(!k.try_bias_from(vec![("low", 1), ("new", 1), ("TOP", 1)]));
    assert_eq!(k.entries(), vec![("top".to_string(), i32::MAX), ("low".to_string(), 3)]);
    assert!(k.try_bias_from(vec![("low", 1), ("new", 1), ("TOP", -1), ("top", 1)]));
    assert_eq!(
        k.entries(),
        vec![("top".to_string(), i32::MAX), ("low".to_string(), 4), ("new".to_string(), 1)]
    );
    assert!(k.try_bias_from(vec![]));
}
