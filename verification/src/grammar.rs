//! The grammar of chat lines: votes for terms in what is said in a channel,
//! and the commands in what is said to the bot.
//!
//! A word is a run of alphanumeric characters, or anything between two
//! double quotes. A word followed at once by `++` or `--` is a vote. A line
//! is read word by word, skipping what lies between words, and reading ends
//! where something that could start a word does not: at a lone `+` or `-`, or
//! at a quote that is never closed.
//!
//! The grammar reads glyphs: characters that are already told apart as
//! alphanumeric, white space or neither. `classify` tells them apart.

use vstd::prelude::*;
use vstd::string::*;
use crate::karma::{pairs_of, Karma};
use crate::ledger::score;
use crate::ranking::rendered;
use crate::term::{chars_of, folded};
use crate::text::{decimal, decimal_text};

verus! {

/// Whether `c` is alphanumeric, as `nom_unicode::is_alphanumeric` has it.
pub uninterp spec fn alphanumeric(c: char) -> bool;

/// Whether `c` is white space, as `nom_unicode::is_whitespace` has it.
pub uninterp spec fn whitespace(c: char) -> bool;

/// Calls `nom_unicode::is_alphanumeric` on `c`. Trusted: the answer is that
/// function's.
#[verifier::external_body]
fn is_alphanumeric(c: char) -> (yes: bool)
    ensures
        yes == alphanumeric(c),
{
    nom_unicode::is_alphanumeric(c)
}

/// Calls `nom_unicode::is_whitespace` on `c`. Trusted: the answer is that
/// function's.
#[verifier::external_body]
fn is_whitespace(c: char) -> (yes: bool)
    ensures
        yes == whitespace(c),
{
    nom_unicode::is_whitespace(c)
}

/// A character, with what the grammar reads of it.
#[derive(Clone, Copy, Debug, PartialEq, Eq, Structural)]
pub struct Glyph {
    pub c: char,
    pub alphanumeric: bool,
    pub whitespace: bool,
}

/// The glyph of a character.
pub open spec fn glyph_of(c: char) -> Glyph {
    Glyph { c, alphanumeric: alphanumeric(c), whitespace: whitespace(c) }
}

/// The glyphs of a text.
pub open spec fn glyphs_of(text: Seq<char>) -> Seq<Glyph> {
    Seq::new(text.len(), |i: int| glyph_of(text[i]))
}

/// The text that glyphs spell.
pub open spec fn text_of(glyphs: Seq<Glyph>) -> Seq<char> {
    Seq::new(glyphs.len(), |i: int| glyphs[i].c)
}

/// A class of glyphs that a scan stops at.
#[derive(Clone, Copy, Debug, PartialEq, Eq, Structural)]
pub enum CharClass {
    /// What may belong to a word or a vote.
    Word,
    /// Alphanumeric characters.
    Alphanumeric,
    /// All but alphanumeric characters.
    NotAlphanumeric,
    /// All but white space.
    NotWhitespace,
    /// One character.
    Is(char),
}

/// Whether a glyph may belong to a word or a vote: it is alphanumeric, a
/// double quote, a plus or a minus.
pub open spec fn is_word_char(glyph: Glyph) -> bool {
    glyph.alphanumeric || glyph.c == '"' || glyph.c == '+' || glyph.c == '-'
}

/// Whether a glyph is of the class.
pub open spec fn in_class(class: CharClass, glyph: Glyph) -> bool {
    match class {
        CharClass::Word => is_word_char(glyph),
        CharClass::Alphanumeric => glyph.alphanumeric,
        CharClass::NotAlphanumeric => !glyph.alphanumeric,
        CharClass::NotWhitespace => !glyph.whitespace,
        CharClass::Is(one) => glyph.c == one,
    }
}

/// The least index of `s` from `from` on that holds a glyph of the class, or
/// the length of `s`.
pub open spec fn scan_to(s: Seq<Glyph>, from: int, class: CharClass) -> int
    decreases s.len() - from,
{
    if from >= s.len() {
        s.len() as int
    } else if in_class(class, s[from]) {
        from
    } else {
        scan_to(s, from + 1, class)
    }
}

/// Whether `s` spells `pattern` at the index `at`.
pub open spec fn has_at(s: Seq<Glyph>, at: int, pattern: Seq<char>) -> bool {
    at + pattern.len() <= s.len() && text_of(s).subrange(at, at + pattern.len()) == pattern
}

/// A word found in a text: where what it says starts and ends, and where
/// reading goes on after it.
pub struct Word {
    pub start: int,
    pub end: int,
    pub next: int,
}

/// The word of `s` at the index `at`: what stands between a double quote
/// there and the next one, or else the run of alphanumeric glyphs there.
pub open spec fn word_at(s: Seq<Glyph>, at: int) -> Option<Word> {
    let close = scan_to(s, at + 1, CharClass::Is('"'));
    let end = scan_to(s, at, CharClass::NotAlphanumeric);
    if at < s.len() && s[at].c == '"' && close < s.len() {
        Some(Word { start: at + 1, end: close, next: close + 1 })
    } else if end > at {
        Some(Word { start: at, end, next: end })
    } else {
        None
    }
}

/// The vote of `s` at the index `at`: 1 for `++`, -1 for `--`, else 0.
pub open spec fn vote_at(s: Seq<Glyph>, at: int) -> int {
    if has_at(s, at, seq!['+', '+']) {
        1
    } else if has_at(s, at, seq!['-', '-']) {
        -1
    } else {
        0
    }
}

/// A vote found in a text: where the term starts and ends, and 1 or -1.
pub struct Vote {
    pub start: int,
    pub end: int,
    pub value: int,
}

/// The votes of `s` from the index `at` on.
pub open spec fn votes_from(s: Seq<Glyph>, at: int) -> Seq<Vote>
    decreases s.len() - at,
{
    match word_at(s, scan_to(s, at, CharClass::Word)) {
        None => Seq::<Vote>::empty(),
        Some(word) => {
            let vote = vote_at(s, word.next);
            let after = if vote != 0 {
                word.next + 2
            } else {
                word.next
            };
            let onward = scan_to(s, after, CharClass::Word);
            let rest = if at < onward <= s.len() {
                votes_from(s, onward)
            } else {
                Seq::<Vote>::empty()
            };
            if vote != 0 {
                seq![Vote { start: word.start, end: word.end, value: vote }] + rest
            } else {
                rest
            }
        },
    }
}

/// The mark that opens an action, with the word and the space after it.
pub open spec fn action_mark() -> Seq<char> {
    seq!['\u{1}', 'A', 'C', 'T', 'I', 'O', 'N', ' ']
}

/// Where an action ends, where `s` is one: at the mark that closes what
/// `ACTION ` opens. What the action says stands from the index 8 to there.
pub open spec fn action_end(s: Seq<Glyph>) -> Option<int> {
    let close = scan_to(s, 8, CharClass::Is('\u{1}'));
    if has_at(s, 0, action_mark()) && close < s.len() {
        Some(close)
    } else {
        None
    }
}

/// The vote that an action casts: `hugs` or `slaps`, white space, one word,
/// and nothing more.
pub open spec fn karmic_vote(action: Seq<Glyph>) -> Option<Vote> {
    let hugs = has_at(action, 0, seq!['h', 'u', 'g', 's']);
    let slaps = has_at(action, 0, seq!['s', 'l', 'a', 'p', 's']);
    let verb = if hugs {
        4int
    } else {
        5int
    };
    let space_end = scan_to(action, verb, CharClass::NotWhitespace);
    if !hugs && !slaps {
        None
    } else if space_end == verb {
        None
    } else {
        match word_at(action, space_end) {
            Some(word) => if word.next == action.len() {
                Some(
                    Vote {
                        start: word.start,
                        end: word.end,
                        value: if hugs {
                            1
                        } else {
                            -1
                        },
                    },
                )
            } else {
                None
            },
            None => None,
        }
    }
}

/// The votes that a chat line casts: that of a karmic action, or else the
/// votes among its words.
pub open spec fn chat_votes(s: Seq<Glyph>) -> Seq<Vote> {
    match action_end(s) {
        Some(close) => match karmic_vote(s.subrange(8, close)) {
            Some(vote) => seq![Vote { start: 8 + vote.start, end: 8 + vote.end, value: vote.value }],
            None => votes_from(s, 0),
        },
        None => votes_from(s, 0),
    }
}

/// From where `s` is said to `nick`, where `target` is whom it was sent to:
/// from the start where it was sent to `nick`, else from the first
/// alphanumeric glyph after `nick` and at least one glyph that is not
/// alphanumeric.
pub open spec fn direct_from(nick: Seq<char>, target: Seq<char>, s: Seq<Glyph>) -> Option<int> {
    let from = scan_to(s, nick.len() as int, CharClass::Alphanumeric);
    if target == nick {
        Some(0)
    } else if has_at(s, 0, nick) && from > nick.len() {
        Some(from)
    } else {
        None
    }
}

/// A command said to the bot.
pub enum Command {
    /// Show all scores.
    All,
    /// Show the score of one term, which stands from `start` to `end`.
    One { start: int, end: int },
}

/// The command that `s` gives: `karma`, then white space or none, then a
/// word or none. What follows is not read.
pub open spec fn command_of(s: Seq<Glyph>) -> Option<Command> {
    if !has_at(s, 0, seq!['k', 'a', 'r', 'm', 'a']) {
        None
    } else {
        match word_at(s, scan_to(s, 5, CharClass::NotWhitespace)) {
            Some(word) => Some(Command::One { start: word.start, end: word.end }),
            None => Some(Command::All),
        }
    }
}

/// Why a text could not be read.
#[derive(Clone, Copy, Debug, PartialEq, Eq, Structural)]
pub enum ParseError {
    /// The text does not start with a command.
    Tag,
}

/// Where a scan ends: from where it started to the end of the text, at a
/// glyph of the class if before the end, with none of the class before it.
pub proof fn lemma_scan_to(s: Seq<Glyph>, from: int, class: CharClass)
    requires
        0 <= from <= s.len(),
    ensures
        from <= scan_to(s, from, class) <= s.len(),
        scan_to(s, from, class) < s.len() ==> in_class(class, s[scan_to(s, from, class)]),
        forall|i: int| from <= i < scan_to(s, from, class) ==> !in_class(class, #[trigger] s[i]),
    decreases s.len() - from,
{
    if from < s.len() && !in_class(class, s[from]) {
        lemma_scan_to(s, from + 1, class);
    }
}

/// A word lies within the text and is not empty, quotes counted.
pub proof fn lemma_word_at(s: Seq<Glyph>, at: int)
    requires
        0 <= at <= s.len(),
    ensures
        match word_at(s, at) {
            Some(word) => at <= word.start <= word.end <= word.next <= s.len() && at < word.next,
            None => true,
        },
{
    if at < s.len() {
        lemma_scan_to(s, at + 1, CharClass::Is('"'));
    }
    lemma_scan_to(s, at, CharClass::NotAlphanumeric);
}

/// Every vote stands within the text, and is 1 or -1.
pub proof fn lemma_votes_from(s: Seq<Glyph>, at: int)
    requires
        0 <= at <= s.len(),
    ensures
        forall|i: int|
            0 <= i < votes_from(s, at).len() ==> {
                let vote = #[trigger] votes_from(s, at)[i];
                at <= vote.start <= vote.end <= s.len() && (vote.value == 1 || vote.value == -1)
            },
    decreases s.len() - at,
{
    lemma_scan_to(s, at, CharClass::Word);
    let start = scan_to(s, at, CharClass::Word);
    lemma_word_at(s, start);
    match word_at(s, start) {
        None => {},
        Some(word) => {
            let vote = vote_at(s, word.next);
            let after = if vote != 0 {
                word.next + 2
            } else {
                word.next
            };
            lemma_scan_to(s, after, CharClass::Word);
            let onward = scan_to(s, after, CharClass::Word);
            lemma_votes_from(s, onward);
            let rest = votes_from(s, onward);
            assert forall|i: int| 0 <= i < votes_from(s, at).len() implies {
                let found = #[trigger] votes_from(s, at)[i];
                at <= found.start <= found.end <= s.len() && (found.value == 1 || found.value
                    == -1)
            } by {
                if vote != 0 {
                    if i > 0 {
                        assert(votes_from(s, at)[i] == rest[i - 1]);
                    }
                } else {
                    assert(votes_from(s, at)[i] == rest[i]);
                }
            }
        },
    }
}

/// The glyphs of `text`.
pub fn classify(text: &str) -> (glyphs: Vec<Glyph>)
    ensures
        glyphs@ == glyphs_of(text@),
{
    let chars = chars_of(text);
    let mut glyphs: Vec<Glyph> = Vec::new();
    let mut i: usize = 0;
    while i < chars.len()
        invariant
            i <= chars@.len(),
            chars@ == text@,
            glyphs@.len() == i,
            forall|j: int| 0 <= j < i ==> #[trigger] glyphs@[j] == glyph_of(text@[j]),
        decreases chars@.len() - i,
    {
        let c: char = chars[i];
        let letter = is_alphanumeric(c);
        let blank = is_whitespace(c);
        let glyph = Glyph { c, alphanumeric: letter, whitespace: blank };
        assert(glyph == glyph_of(text@[i as int]));
        glyphs.push(glyph);
        i += 1;
    }
    proof {
        assert(glyphs@ =~= glyphs_of(text@));
    }
    glyphs
}

/// Whether a glyph is of the class.
fn has_class(class: CharClass, glyph: Glyph) -> (yes: bool)
    ensures
        yes == in_class(class, glyph),
{
    match class {
        CharClass::Word => glyph.alphanumeric || glyph.c == '"' || glyph.c == '+' || glyph.c
            == '-',
        CharClass::Alphanumeric => glyph.alphanumeric,
        CharClass::NotAlphanumeric => !glyph.alphanumeric,
        CharClass::NotWhitespace => !glyph.whitespace,
        CharClass::Is(one) => glyph.c == one,
    }
}

/// The first index from `from` on that holds a glyph of the class, or the
/// length of the text.
pub fn scan(glyphs: &Vec<Glyph>, from: usize, class: CharClass) -> (at: usize)
    ensures
        at == scan_to(glyphs@, from as int, class),
        from <= glyphs@.len() ==> from <= at <= glyphs@.len(),
{
    if from >= glyphs.len() {
        return glyphs.len();
    }
    let mut at: usize = from;
    while at < glyphs.len() && !has_class(class, glyphs[at])
        invariant
            from <= at <= glyphs@.len(),
            scan_to(glyphs@, from as int, class) == scan_to(glyphs@, at as int, class),
        decreases glyphs@.len() - at,
    {
        at += 1;
    }
    at
}

/// Whether the text spells `pattern` at the index `at`.
pub fn found_at(glyphs: &Vec<Glyph>, at: usize, pattern: &Vec<char>) -> (yes: bool)
    ensures
        yes == has_at(glyphs@, at as int, pattern@),
{
    let len: usize = glyphs.len();
    if at > len || pattern.len() > len - at {
        return false;
    }
    let mut i: usize = 0;
    while i < pattern.len()
        invariant
            i <= pattern@.len(),
            len == glyphs@.len(),
            at + pattern@.len() <= len,
            text_of(glyphs@).subrange(at as int, at + i) == pattern@.take(i as int),
        decreases pattern@.len() - i,
    {
        if glyphs[at + i].c != pattern[i] {
            proof {
                assert(text_of(glyphs@).subrange(at as int, at + pattern@.len())[i as int]
                    != pattern@[i as int]);
            }
            return false;
        }
        proof {
            assert(text_of(glyphs@).subrange(at as int, at + i + 1) =~= text_of(
                glyphs@,
            ).subrange(at as int, at + i).push(glyphs@[at + i].c));
            assert(pattern@.take(i + 1) =~= pattern@.take(i as int).push(pattern@[i as int]));
        }
        i += 1;
    }
    proof {
        assert(pattern@.take(i as int) == pattern@);
    }
    true
}

/// A word found in a text, by the indices of its glyphs.
#[derive(Clone, Copy, Debug, PartialEq, Eq, Structural)]
pub struct Span {
    pub start: usize,
    pub end: usize,
    pub next: usize,
}

/// The word of the text at the index `at`.
pub fn word(glyphs: &Vec<Glyph>, at: usize) -> (found: Option<Span>)
    ensures
        match found {
            Some(span) => word_at(glyphs@, at as int) == Some(
                Word { start: span.start as int, end: span.end as int, next: span.next as int },
            ),
            None => word_at(glyphs@, at as int).is_none(),
        },
        at <= glyphs@.len() ==> match found {
            Some(span) => at <= span.start <= span.end <= span.next <= glyphs@.len() && at
                < span.next,
            None => true,
        },
{
    if at >= glyphs.len() {
        return None;
    }
    proof {
        lemma_word_at(glyphs@, at as int);
    }
    if glyphs[at].c == '"' {
        let close = scan(glyphs, at + 1, CharClass::Is('"'));
        if close < glyphs.len() {
            return Some(Span { start: at + 1, end: close, next: close + 1 });
        }
    }
    let end = scan(glyphs, at, CharClass::NotAlphanumeric);
    if end > at {
        Some(Span { start: at, end, next: end })
    } else {
        None
    }
}

/// A vote found in a text: the indices between which its term stands, and 1
/// or -1.
#[derive(Clone, Copy, Debug, PartialEq, Eq, Structural)]
pub struct Cast {
    pub start: usize,
    pub end: usize,
    pub value: i32,
}

impl View for Cast {
    type V = Vote;

    open spec fn view(&self) -> Vote {
        Vote { start: self.start as int, end: self.end as int, value: self.value as int }
    }
}

/// The votes that casts stand for.
pub open spec fn votes_of(casts: Seq<Cast>) -> Seq<Vote> {
    Seq::new(casts.len(), |i: int| casts[i]@)
}

/// The characters `++`.
fn plus_plus() -> (pattern: Vec<char>)
    ensures
        pattern@ == seq!['+', '+'],
{
    vec!['+', '+']
}

/// The characters `--`.
fn minus_minus() -> (pattern: Vec<char>)
    ensures
        pattern@ == seq!['-', '-'],
{
    vec!['-', '-']
}

/// The votes among the words of a text.
pub fn votes_among(glyphs: &Vec<Glyph>) -> (found: Vec<Cast>)
    ensures
        votes_of(found@) == votes_from(glyphs@, 0),
{
    let plus = plus_plus();
    let minus = minus_minus();
    let mut found: Vec<Cast> = Vec::new();
    let len: usize = glyphs.len();
    let mut at: usize = 0;
    let mut reading = true;
    proof {
        assert(votes_of(found@) + votes_from(glyphs@, 0) =~= votes_from(glyphs@, 0));
    }
    while reading
        invariant
            at <= glyphs@.len(),
            len == glyphs@.len(),
            plus@ == seq!['+', '+'],
            minus@ == seq!['-', '-'],
            reading ==> votes_from(glyphs@, 0) == votes_of(found@) + votes_from(
                glyphs@,
                at as int,
            ),
            !reading ==> votes_from(glyphs@, 0) == votes_of(found@),
        decreases glyphs@.len() - at + if reading { 1int } else { 0int },
    {
        let ghost before = votes_of(found@);
        let start = scan(glyphs, at, CharClass::Word);
        match word(glyphs, start) {
            None => {
                proof {
                    assert(before + votes_from(glyphs@, at as int) =~= before);
                }
                reading = false;
            },
            Some(span) => {
                let vote: i32 = if found_at(glyphs, span.next, &plus) {
                    1
                } else if found_at(glyphs, span.next, &minus) {
                    -1
                } else {
                    0
                };
                let after: usize = if vote != 0 {
                    span.next + 2
                } else {
                    span.next
                };
                let onward = scan(glyphs, after, CharClass::Word);
                if vote != 0 {
                    let cast = Cast { start: span.start, end: span.end, value: vote };
                    found.push(cast);
                    proof {
                        assert(votes_of(found@) =~= before.push(cast@));
                        assert(before + (seq![cast@] + votes_from(glyphs@, onward as int))
                            =~= before.push(cast@) + votes_from(glyphs@, onward as int));
                    }
                }
                at = onward;
            },
        }
    }
    found
}

/// The vote that an action casts, if it casts one.
pub fn karmic(action: &Vec<Glyph>) -> (vote: Option<Cast>)
    ensures
        match vote {
            Some(cast) => karmic_vote(action@) == Some(cast@) && cast.start <= cast.end
                <= action@.len(),
            None => karmic_vote(action@).is_none(),
        },
{
    let hugs_word: Vec<char> = vec!['h', 'u', 'g', 's'];
    let slaps_word: Vec<char> = vec!['s', 'l', 'a', 'p', 's'];
    let hugs = found_at(action, 0, &hugs_word);
    if !hugs && !found_at(action, 0, &slaps_word) {
        return None;
    }
    let verb: usize = if hugs {
        4
    } else {
        5
    };
    let value: i32 = if hugs {
        1
    } else {
        -1
    };
    let space_end = scan(action, verb, CharClass::NotWhitespace);
    if space_end == verb {
        return None;
    }
    match word(action, space_end) {
        Some(span) => {
            if span.next == action.len() {
                Some(Cast { start: span.start, end: span.end, value })
            } else {
                None
            }
        },
        None => None,
    }
}

/// The glyphs from `from` to `to`.
fn part_of(glyphs: &Vec<Glyph>, from: usize, to: usize) -> (part: Vec<Glyph>)
    requires
        from <= to <= glyphs@.len(),
    ensures
        part@ == glyphs@.subrange(from as int, to as int),
{
    let mut part: Vec<Glyph> = Vec::new();
    let mut i: usize = from;
    while i < to
        invariant
            from <= i <= to,
            to <= glyphs@.len(),
            part@ == glyphs@.subrange(from as int, i as int),
        decreases to - i,
    {
        part.push(glyphs[i]);
        proof {
            assert(glyphs@.subrange(from as int, i + 1) =~= glyphs@.subrange(
                from as int,
                i as int,
            ).push(glyphs@[i as int]));
        }
        i += 1;
    }
    part
}

/// The votes that a chat line casts: that of a karmic action, or else the
/// votes among its words.
pub fn votes_in(glyphs: &Vec<Glyph>) -> (found: Vec<Cast>)
    ensures
        votes_of(found@) == chat_votes(glyphs@),
{
    let mark: Vec<char> = vec!['\u{1}', 'A', 'C', 'T', 'I', 'O', 'N', ' '];
    if found_at(glyphs, 0, &mark) {
        let close = scan(glyphs, 8, CharClass::Is('\u{1}'));
        if close < glyphs.len() {
            let action = part_of(glyphs, 8, close);
            match karmic(&action) {
                Some(cast) => {
                    let mut found: Vec<Cast> = Vec::new();
                    let shifted = Cast {
                        start: 8 + cast.start,
                        end: 8 + cast.end,
                        value: cast.value,
                    };
                    found.push(shifted);
                    proof {
                        assert(votes_of(found@) =~= seq![shifted@]);
                    }
                    return found;
                },
                None => {},
            }
        }
    }
    votes_among(glyphs)
}

/// From where a text is said to `nick`, where `target` is whom it was sent
/// to.
pub fn said_from(nick: &Vec<char>, target: &Vec<char>, glyphs: &Vec<Glyph>) -> (from: Option<usize>)
    ensures
        match from {
            Some(at) => direct_from(nick@, target@, glyphs@) == Some(at as int) && at
                <= glyphs@.len(),
            None => direct_from(nick@, target@, glyphs@).is_none(),
        },
{
    if crate::term::key_order(target, nick) == crate::term::KeyOrder::Same {
        return Some(0);
    }
    if !found_at(glyphs, 0, nick) {
        return None;
    }
    let from = scan(glyphs, nick.len(), CharClass::Alphanumeric);
    if from > nick.len() {
        Some(from)
    } else {
        None
    }
}

/// A command said to the bot, by the indices of its term.
#[derive(Clone, Copy, Debug, PartialEq, Eq, Structural)]
pub enum Asked {
    /// Show all scores.
    All,
    /// Show the score of one term, which stands from `start` to `end`.
    One { start: usize, end: usize },
}

impl View for Asked {
    type V = Command;

    open spec fn view(&self) -> Command {
        match *self {
            Asked::All => Command::All,
            Asked::One { start, end } => Command::One { start: start as int, end: end as int },
        }
    }
}

/// The command that a text gives, if it gives one.
pub fn asked_in(glyphs: &Vec<Glyph>) -> (asked: Option<Asked>)
    ensures
        match asked {
            Some(command) => command_of(glyphs@) == Some(command@),
            None => command_of(glyphs@).is_none(),
        },
        match asked {
            Some(Asked::One { start, end }) => start <= end <= glyphs@.len(),
            _ => true,
        },
{
    let karma: Vec<char> = vec!['k', 'a', 'r', 'm', 'a'];
    if !found_at(glyphs, 0, &karma) {
        return None;
    }
    let start = scan(glyphs, 5, CharClass::NotWhitespace);
    match word(glyphs, start) {
        Some(span) => Some(Asked::One { start: span.start, end: span.end }),
        None => Some(Asked::All),
    }
}

/// The terms and values that votes stand for in a text.
pub open spec fn named_votes(text: Seq<char>, votes: Seq<Vote>) -> Seq<(Seq<char>, int)> {
    Seq::new(votes.len(), |i: int| (text.subrange(votes[i].start, votes[i].end), votes[i].value))
}

/// The votes that a chat line casts, each as its term and 1 or -1: that of a
/// karmic action, or else the votes among its words. Every line can be read.
pub fn parse_chat<'a>(text: &'a str) -> (votes: Result<Vec<(&'a str, i32)>, ParseError>)
    ensures
        votes.is_ok(),
        pairs_of(votes.unwrap()@) == named_votes(text@, chat_votes(glyphs_of(text@))),
{
    let glyphs = classify(text);
    let casts = votes_in(&glyphs);
    let ghost all = chat_votes(glyphs@);
    proof {
        lemma_chat_votes(glyphs@);
    }
    let mut votes: Vec<(&'a str, i32)> = Vec::new();
    let mut i: usize = 0;
    while i < casts.len()
        invariant
            i <= casts.len(),
            glyphs@.len() == text@.len(),
            all == votes_of(casts@),
            forall|k: int|
                0 <= k < all.len() ==> 0 <= (#[trigger] all[k]).start <= all[k].end
                    <= glyphs@.len(),
            votes@.len() == i,
            forall|k: int|
                0 <= k < i ==> (#[trigger] votes@[k]).0@ == text@.subrange(
                    all[k].start,
                    all[k].end,
                ) && votes@[k].1 == all[k].value,
        decreases casts.len() - i,
    {
        let cast = casts[i];
        proof {
            assert(all[i as int] == cast@);
        }
        votes.push((text.substring_char(cast.start, cast.end), cast.value));
        i += 1;
    }
    proof {
        assert(pairs_of(votes@) =~= named_votes(text@, all));
    }
    Ok(votes)
}

/// Every vote of a chat line stands within the line.
pub proof fn lemma_chat_votes(s: Seq<Glyph>)
    ensures
        forall|i: int|
            0 <= i < chat_votes(s).len() ==> {
                let vote = #[trigger] chat_votes(s)[i];
                0 <= vote.start <= vote.end <= s.len() && (vote.value == 1 || vote.value == -1)
            },
{
    lemma_votes_from(s, 0);
    match action_end(s) {
        Some(close) => {
            lemma_scan_to(s, 8, CharClass::Is('\u{1}'));
            let action = s.subrange(8, close);
            match karmic_vote(action) {
                Some(vote) => {
                    let verb = if has_at(action, 0, seq!['h', 'u', 'g', 's']) {
                        4int
                    } else {
                        5int
                    };
                    lemma_scan_to(action, verb, CharClass::NotWhitespace);
                    lemma_word_at(action, scan_to(action, verb, CharClass::NotWhitespace));
                },
                None => {},
            }
        },
        None => {},
    }
}

/// What of `s` is said to `nick`, where `target` is whom it was sent to: all
/// of it where it was sent to `nick`, else what follows `nick` and at least
/// one character that is not alphanumeric, from the next alphanumeric
/// character on.
pub fn get_dm<'a>(nick: &str, target: &str, s: &'a str) -> (said: Option<&'a str>)
    ensures
        match said {
            Some(rest) => direct_from(nick@, target@, glyphs_of(s@)).is_some() && rest@
                == s@.skip(direct_from(nick@, target@, glyphs_of(s@)).unwrap()),
            None => direct_from(nick@, target@, glyphs_of(s@)).is_none(),
        },
{
    let glyphs = classify(s);
    let name = chars_of(nick);
    let whom = chars_of(target);
    match said_from(&name, &whom, &glyphs) {
        Some(from) => {
            proof {
                assert(s@.skip(from as int) =~= s@.subrange(from as int, s@.len() as int));
            }
            Some(s.substring_char(from, glyphs.len()))
        },
        None => None,
    }
}

/// Answers a command said to the bot: `karma` with all scores, `karma` and
/// a term with the score of the term. Anything else is no command.
pub fn parse_dm(text: &str, karma: &Karma) -> (answer: Result<String, ParseError>)
    ensures
        match command_of(glyphs_of(text@)) {
            Some(Command::All) => answer.is_ok() && answer.unwrap()@ == rendered(karma@),
            Some(Command::One { start, end }) => answer.is_ok() && answer.unwrap()@ == decimal(
                score(karma@, folded(text@.subrange(start, end))),
            ),
            None => answer == Err::<String, ParseError>(ParseError::Tag),
        },
{
    let glyphs = classify(text);
    match asked_in(&glyphs) {
        None => Err(ParseError::Tag),
        Some(Asked::All) => Ok(karma.render()),
        Some(Asked::One { start, end }) => {
            let term = text.substring_char(start, end);
            Ok(decimal_text(karma.get(term)))
        },
    }
}

} // verus!
