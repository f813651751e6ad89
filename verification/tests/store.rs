use gertrude::store::{copy_of, Ledger, Line};

fn line(key: &str, term: &str, value: i32) -> Line {
    Line { key: key.chars().collect(), term: term.to_string(), value }
}

fn key(key: &str) -> Vec<char> {
    key.chars().collect()
}

fn shown(ledger: &Ledger) -> Vec<(String, String, i32)> {
    ledger
        .lines()
        .into_iter()
        .map(|line| (line.key.into_iter().collect(), line.term, line.value))
        .collect()
}

#[test]
fn a_line_is_found_by_its_key_alone() {
    let mut ledger = Ledger::new();
    assert_eq!(ledger.get(&key("k")), 0);
    assert_eq!(ledger.set(line("k", "First", 5)), 0);
    assert_eq!(ledger.set(line("k", "second", 7)), 5);
    assert_eq!(ledger.set(line("K", "second", 1)), 0);
    assert_eq!(ledger.get(&key("k")), 7);
    assert_eq!(ledger.get(&key("K")), 1);
    assert_eq!(ledger.get(&key("")), 0);
    assert_eq!(
        shown(&ledger),
        vec![("k".to_string(), "First".to_string(), 7), ("K".to_string(), "second".to_string(), 1)]
    );
}

#[test]
fn biases_add_up_in_turn() {
    let mut ledger = Ledger::new();
    let deltas = vec![line("a", "A", 2), line("b", "B", -1), line("a", "a", 3), line("c", "C", 0)];
    assert!(ledger.fits(&deltas));
    ledger.bias_all(deltas);
    assert_eq!(
        shown(&ledger),
        vec![
            ("a".to_string(), "A".to_string(), 5),
            ("b".to_string(), "B".to_string(), -1),
            ("c".to_string(), "C".to_string(), 0),
        ]
    );
}

#[test]
fn a_batch_fits_only_if_every_step_does() {
    let mut ledger = Ledger::new();
    ledger.set(line("top", "top", i32::MAX));
    ledger.set(line("low", "low", i32::MIN));
    assert!(!ledger.fits(&vec![line("top", "top", 1)]));
    assert!(!ledger.fits(&vec![line("top", "top", 1), line("top", "top", -1)]));
    assert!(ledger.fits(&vec![line("top", "top", -1), line("top", "top", 1)]));
    assert!(!ledger.fits(&vec![line("low", "low", -1)]));
    assert!(ledger.fits(&vec![line("low", "low", i32::MAX), line("low", "low", i32::MAX)]));
    assert!(ledger.fits(&vec![]));
}

#[test]
fn assigning_in_turn_lets_the_last_value_stand() {
    let mut ledger = Ledger::new();
    ledger.assign_all(vec![line("a", "A", 1), line("b", "B", 2), line("a", "a", 3)]);
    assert_eq!(
        shown(&ledger),
        vec![("a".to_string(), "A".to_string(), 3), ("b".to_string(), "B".to_string(), 2)]
    );
}

#[test]
fn lines_are_shown_by_score_and_then_by_key() {
    let mut ledger = Ledger::new();
    ledger.assign_all(vec![
        line("b", "Beta", 1),
        line("a", "alpha", 1),
        line("ab", "AB", 1),
        line("z", "Zed", 9),
        line("", "nothing", 1),
        line("m", "minus", -9),
    ]);
    assert_eq!(ledger.render(), "Zed: 9; nothing: 1; alpha: 1; AB: 1; Beta: 1; minus: -9");
    assert_eq!(Ledger::new().render(), "");
}

#[test]
fn keys_are_ordered_by_code_point() {
    let mut ledger = Ledger::new();
    ledger.assign_all(vec![line("é", "e-acute", 0), line("z", "z", 0), line("a", "a", 0), line("Z", "Z", 0), line("💩", "poo", 0)]);
    assert_eq!(ledger.render(), "Z: 0; a: 0; z: 0; e-acute: 0; poo: 0");
}

#[test]
fn a_ledger_agrees_with_its_lines() {
    let mut ledger = Ledger::new();
    ledger.assign_all(vec![line("a", "A", 1), line("b", "B", 2)]);
    assert!(ledger.agrees(&vec![line("a", "A", 1), line("b", "B", 2)]));
    assert!(ledger.agrees(&vec![line("b", "B", 2), line("a", "A", 1)]));
    assert!(!ledger.agrees(&vec![line("a", "A", 1)]));
    assert!(!ledger.agrees(&vec![line("a", "A", 1), line("b", "B", 3)]));
    assert!(!ledger.agrees(&vec![line("a", "a", 1), line("b", "B", 2)]));
    assert!(!ledger.agrees(&vec![line("a", "A", 1), line("b", "B", 2), line("c", "C", 0)]));
    assert!(Ledger::new().agrees(&vec![]));
}

#[test]
fn a_clone_has_lines_of_its_own() {
    let mut ledger = Ledger::new();
    ledger.set(line("a", "A", 1));
    let then = ledger.clone();
    ledger.set(line("a", "A", 2));
    assert_eq!(then.get(&key("a")), 1);
    assert_eq!(ledger.get(&key("a")), 2);
    let first = line("x", "X", 3);
    let second = first.clone();
    assert_eq!((second.key, second.term, second.value), (first.key, first.term, first.value));
    assert_eq!(copy_of(&key("abc")), key("abc"));
}
