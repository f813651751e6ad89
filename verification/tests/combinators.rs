//! The grammar of chat lines written down a second time, with the parser
//! combinators of `nom`, and held against the library on many small texts.

use gertrude::grammar::{get_dm, parse_chat, parse_dm};
use gertrude::karma::Karma;
use nom::branch::alt;
use nom::bytes::complete::{tag, take_till, take_till1};
use nom::combinator::{eof, opt, value};
use nom::error::Error;
use nom::multi::many0;
use nom::sequence::{delimited, pair, preceded};
use nom::{IResult, Parser};
use nom_unicode::complete::{alphanumeric1, space1};
use nom_unicode::is_alphanumeric;

fn word(input: &str) -> IResult<&str, &str> {
    alt((delimited(tag("\""), take_till(|c| c == '"'), tag("\"")), alphanumeric1)).parse(input)
}

fn is_word_char(c: char) -> bool {
    is_alphanumeric(c) || c == '"' || c == '+' || c == '-'
}

fn vote(input: &str) -> IResult<&str, i32> {
    alt((value(1, tag("++")), value(-1, tag("--")))).parse(input)
}

fn verb(input: &str) -> IResult<&str, i32> {
    alt((value(1, tag("hugs")), value(-1, tag("slaps")))).parse(input)
}

fn action(input: &str) -> IResult<&str, &str> {
    delimited(
        nom::character::complete::char('\x01'),
        preceded(tag("ACTION "), take_till(|c| c == '\x01')),
        nom::character::complete::char('\x01'),
    )
    .parse(input)
}

fn karmic(input: &str) -> IResult<&str, (i32, &str, &str, &str)> {
    (verb, space1, word, eof).parse(input)
}

fn words(input: &str) -> IResult<&str, (&str, i32)> {
    delimited(
        take_till(is_word_char),
        alt((pair(word, vote), value(("", 0), word))),
        take_till(is_word_char),
    )
    .parse(input)
}

fn chat_by_combinators(text: &str) -> Result<Vec<(&str, i32)>, nom::Err<Error<&str>>> {
    if let Ok((_, cmd)) = action(text) {
        if let Ok((rest, (bias, _, term, _))) = karmic(cmd) {
            if rest.is_empty() {
                return Ok(vec![(term, bias)]);
            }
        }
    }
    many0(words)
        .parse(text)
        .map(|(_rest, vec)| vec.into_iter().filter(|(_, n)| n != &0).collect())
}

fn dm_by_combinators<'a>(nick: &str, target: &str, s: &'a str) -> Option<&'a str> {
    if target.eq(nick) {
        Some(s)
    } else {
        let parsed: IResult<&str, (&str, &str)> =
            (tag(nick), take_till1(is_alphanumeric)).parse(s);
        match parsed {
            Ok((rest, _)) => Some(rest),
            Err(_) => None,
        }
    }
}

fn command_by_combinators(text: &str, karma: &Karma) -> Option<String> {
    let parsed: IResult<&str, (&str, Option<&str>, Option<&str>)> =
        (tag("karma"), opt(space1), opt(word)).parse(text);
    match parsed {
        Ok((_rest, (_, _, None))) => Some(karma.render()),
        Ok((_rest, (_, _, Some(token)))) => Some(format!("{}", karma.get(token))),
        Err(_) => None,
    }
}

fn texts(pieces: &[&str], longest: usize) -> Vec<String> {
    let mut all = vec![String::new()];
    let mut last = vec![String::new()];
    for _ in 0..longest {
        let mut next = Vec::new();
        for text in &last {
            for piece in pieces {
                next.push(format!("{}{}", text, piece));
            }
        }
        all.extend(next.iter().cloned());
        last = next;
    }
    all
}

#[test]
fn chat_agrees_with_the_combinators_on_short_lines() {
    let pieces = ["a", "B", " ", "+", "-", "\"", ".", "ɸ", "7"];
    for text in texts(&pieces, 5) {
        let ours = parse_chat(&text);
        assert!(ours.is_ok());
        assert_eq!(ours.unwrap(), chat_by_combinators(&text).unwrap(), "{:?}", text);
    }
}

#[test]
fn chat_agrees_with_the_combinators_on_lines_of_words() {
    let pieces = ["bacon", "++", "--", " ", "\"", "-", "+", "💩", "foo bar", ", "];
    for text in texts(&pieces, 4) {
        let ours = parse_chat(&text);
        assert!(ours.is_ok());
        assert_eq!(ours.unwrap(), chat_by_combinators(&text).unwrap(), "{:?}", text);
    }
}

#[test]
fn chat_agrees_with_the_combinators_on_actions() {
    let pieces = ["hugs", "slaps", " ", "\t", "bacon", "\"", "\x01", "++", "x y"];
    for inner in texts(&pieces, 4) {
        for text in [
            format!("\x01ACTION {}\x01", inner),
            format!("\x01ACTION {}", inner),
            format!("\x01ACTION{}\x01", inner),
            format!("\x01ACTION {}\x01 bacon++", inner),
            format!("ACTION {}\x01", inner),
        ] {
            let ours = parse_chat(&text);
            assert!(ours.is_ok());
            assert_eq!(ours.unwrap(), chat_by_combinators(&text).unwrap(), "{:?}", text);
        }
    }
}

#[test]
fn get_dm_agrees_with_the_combinators() {
    let pieces = ["gertie", "g", ":", " ", ",", "karma", "é", ">"];
    for text in texts(&pieces, 4) {
        for nick in ["gertie", "g", "", "gé"] {
            for target in ["#chan", "gertie", "g", ""] {
                assert_eq!(
                    get_dm(nick, target, &text),
                    dm_by_combinators(nick, target, &text),
                    "{:?} {:?} {:?}",
                    nick,
                    target,
                    text
                );
            }
        }
    }
}

#[test]
fn parse_dm_agrees_with_the_combinators() {
    let k = Karma::from(vec![("bacon", 1), ("a b", -7), ("rust", 666), ("", 5)]);
    let pieces = ["karma", " ", "bacon", "\"", "a b", "RUST", "+", "\u{2003}", "k"];
    for text in texts(&pieces, 4) {
        assert_eq!(parse_dm(&text, &k).ok(), command_by_combinators(&text, &k), "{:?}", text);
    }
}
