use gertrude::grammar::{
    asked_in, classify, found_at, karmic, said_from, scan, votes_among, votes_in, word, Asked,
    Cast, CharClass, Glyph, Span,
};

/// Glyphs for a text in which letters and digits are alphanumeric, a blank is white space, and an
/// underscore is told to be both: the grammar goes by what it is told.
fn told(text: &str) -> Vec<Glyph> {
    text.chars()
        .map(|c| Glyph {
            c,
            alphanumeric: c.is_ascii_alphanumeric() || c == '_',
            whitespace: c == ' ' || c == '_',
        })
        .collect()
}

fn chars(text: &str) -> Vec<char> {
    text.chars().collect()
}

#[test]
fn classify_tells_the_glyphs_apart() {
    let glyphs = classify("a1 ɸ\t+💩\u{2003}");
    let read: Vec<(char, bool, bool)> =
        glyphs.iter().map(|g| (g.c, g.alphanumeric, g.whitespace)).collect();
    assert_eq!(
        read,
        vec![
            ('a', true, false),
            ('1', true, false),
            (' ', false, true),
            ('ɸ', true, false),
            ('\t', false, true),
            ('+', false, false),
            ('💩', false, false),
            ('\u{2003}', false, true),
        ]
    );
    assert!(classify("").is_empty());
}

#[test]
fn a_scan_stops_at_the_first_of_its_class() {
    let glyphs = told("  ab \"c\" +");
    assert_eq!(scan(&glyphs, 0, CharClass::Word), 2);
    assert_eq!(scan(&glyphs, 2, CharClass::Word), 2);
    assert_eq!(scan(&glyphs, 2, CharClass::NotAlphanumeric), 4);
    assert_eq!(scan(&glyphs, 4, CharClass::NotWhitespace), 5);
    assert_eq!(scan(&glyphs, 6, CharClass::Is('"')), 7);
    assert_eq!(scan(&glyphs, 8, CharClass::Alphanumeric), 10);
    assert_eq!(scan(&glyphs, 10, CharClass::Word), 10);
    assert_eq!(scan(&glyphs, 99, CharClass::Word), 10);
}

#[test]
fn a_pattern_is_found_where_it_stands() {
    let glyphs = told("karma++");
    assert!(found_at(&glyphs, 0, &chars("karma")));
    assert!(found_at(&glyphs, 5, &chars("++")));
    assert!(found_at(&glyphs, 7, &chars("")));
    assert!(!found_at(&glyphs, 6, &chars("++")));
    assert!(!found_at(&glyphs, 1, &chars("karma")));
    assert!(!found_at(&glyphs, 8, &chars("")));
}

#[test]
fn a_word_is_a_run_or_a_quotation() {
    let glyphs = told("ab \"c d\" \"e");
    assert_eq!(word(&glyphs, 0), Some(Span { start: 0, end: 2, next: 2 }));
    assert_eq!(word(&glyphs, 1), Some(Span { start: 1, end: 2, next: 2 }));
    assert_eq!(word(&glyphs, 2), None);
    assert_eq!(word(&glyphs, 3), Some(Span { start: 4, end: 7, next: 8 }));
    assert_eq!(word(&glyphs, 9), None);
    assert_eq!(word(&glyphs, 10), Some(Span { start: 10, end: 11, next: 11 }));
    assert_eq!(word(&glyphs, 11), None);
    assert_eq!(word(&glyphs, 12), None);
}

#[test]
fn votes_follow_their_words_at_once() {
    assert_eq!(
        votes_among(&told("ab++ cd ef-- \"g h\"++")),
        vec![
            Cast { start: 0, end: 2, value: 1 },
            Cast { start: 8, end: 10, value: -1 },
            Cast { start: 14, end: 17, value: 1 },
        ]
    );
    assert_eq!(votes_among(&told("ab ++ cd++")), vec![]);
    assert_eq!(votes_among(&told("")), vec![]);
}

#[test]
fn the_grammar_goes_by_what_it_is_told() {
    // An underscore that is told to be alphanumeric belongs to the word.
    assert_eq!(votes_among(&told("a_b++")), vec![Cast { start: 0, end: 3, value: 1 }]);
    // The same text with the underscore told to be neither.
    let mut glyphs = told("a_b++");
    glyphs[1].alphanumeric = false;
    assert_eq!(votes_among(&glyphs), vec![Cast { start: 2, end: 3, value: 1 }]);
    // Letters that are told not to be alphanumeric are no words.
    let mut glyphs = told("ab++");
    glyphs[0].alphanumeric = false;
    glyphs[1].alphanumeric = false;
    assert_eq!(votes_among(&glyphs), vec![]);
}

#[test]
fn an_action_casts_one_vote() {
    assert_eq!(karmic(&told("hugs ab")), Some(Cast { start: 5, end: 7, value: 1 }));
    assert_eq!(karmic(&told("slaps  \"a b\"")), Some(Cast { start: 8, end: 11, value: -1 }));
    assert_eq!(karmic(&told("hugs_ab")), Some(Cast { start: 5, end: 7, value: 1 }));
    assert_eq!(karmic(&told("hugs ab cd")), None);
    assert_eq!(karmic(&told("hugsab")), None);
    assert_eq!(karmic(&told("hugs ")), None);
    assert_eq!(karmic(&told("hug ab")), None);
    assert_eq!(karmic(&told("")), None);
    assert_eq!(
        votes_in(&told("\u{1}ACTION hugs ab\u{1}")),
        vec![Cast { start: 13, end: 15, value: 1 }]
    );
    assert_eq!(
        votes_in(&told("\u{1}ACTION likes ab++\u{1}")),
        vec![Cast { start: 14, end: 16, value: 1 }]
    );
    assert_eq!(votes_in(&told("\u{1}ACTION hugs ab")), vec![]);
}

#[test]
fn a_line_is_said_to_the_bot_by_its_nick() {
    let glyphs = told("bot: hi");
    assert_eq!(said_from(&chars("bot"), &chars("#c"), &glyphs), Some(5));
    assert_eq!(said_from(&chars("bot"), &chars("bot"), &glyphs), Some(0));
    assert_eq!(said_from(&chars("bo"), &chars("#c"), &glyphs), None);
    assert_eq!(said_from(&chars("bot:"), &chars("#c"), &glyphs), Some(5));
    assert_eq!(said_from(&chars("bot"), &chars("#c"), &told("bot")), None);
    assert_eq!(said_from(&chars("bot"), &chars("#c"), &told("bot: ")), Some(5));
    assert_eq!(said_from(&chars("bot"), &chars("#c"), &told("hi bot: hi")), None);
    assert_eq!(said_from(&chars(""), &chars("#c"), &told(": hi")), Some(2));
}

#[test]
fn a_command_is_karma_and_a_word_or_none() {
    assert_eq!(asked_in(&told("karma")), Some(Asked::All));
    assert_eq!(asked_in(&told("karma  ")), Some(Asked::All));
    assert_eq!(asked_in(&told("karma ab")), Some(Asked::One { start: 6, end: 8 }));
    assert_eq!(asked_in(&told("karmaab cd")), Some(Asked::One { start: 5, end: 7 }));
    assert_eq!(asked_in(&told("karma \"a b\" c")), Some(Asked::One { start: 7, end: 10 }));
    assert_eq!(asked_in(&told("karma +")), Some(Asked::All));
    assert_eq!(asked_in(&told("karm")), None);
    assert_eq!(asked_in(&told(" karma")), None);
    assert_eq!(asked_in(&told("")), None);
}
