use ebnf::identifier;
use ebnf::parser::{
    parse_delimited_node, parse_regex_string, parse_string, parse_terminal, skip_spaces, Step,
};
use ebnf::text::Source;
use ebnf::Node;
use nom::branch::alt;
use nom::bytes::complete::{escaped, tag};
use nom::character::complete::{alpha1, alphanumeric1, char, multispace0, none_of, one_of};
use nom::combinator::recognize;
use nom::multi::many0_count;
use nom::sequence::{delimited, pair, preceded, terminated};
use nom::IResult;
use parse_hyperlinks::take_until_unbalanced;

/// Every text of at most `longest` characters over an alphabet.
fn texts(alphabet: &[char], longest: usize) -> Vec<String> {
    let mut all = vec![String::new()];
    let mut last = vec![String::new()];
    for _ in 0..longest {
        let mut next = Vec::new();
        for text in &last {
            for c in alphabet {
                let mut longer = text.clone();
                longer.push(*c);
                next.push(longer);
            }
        }
        all.extend(next.iter().cloned());
        last = next;
    }
    all
}

fn cursor_of(text: &str, rest: &str) -> usize {
    text[..text.len() - rest.len()].chars().count()
}

fn name(input: &str) -> IResult<&str, &str> {
    recognize(pair(alt((alpha1, tag("_"))), many0_count(alt((alphanumeric1, tag("_"))))))(input)
}

fn string_literal(input: &str) -> IResult<&str, &str> {
    alt((
        delimited(char('\''), escaped(none_of("\\\'"), '\\', one_of("tbnrf/'")), char('\'')),
        delimited(char('"'), escaped(none_of("\\\""), '\\', one_of("tbnrf/\"")), char('"')),
    ))(input)
}

fn regex_literal(input: &str) -> IResult<&str, &str> {
    alt((
        delimited(tag("#'"), escaped(none_of("\\\'"), '\\', one_of("tbnrf/'")), char('\'')),
        delimited(tag("#\""), escaped(none_of("\\\""), '\\', one_of("tbnrf/\"")), char('"')),
    ))(input)
}

fn reference(input: &str) -> IResult<&str, &str> {
    preceded(multispace0, terminated(name, multispace0))(input)
}

fn spaces(input: &str) -> IResult<&str, &str> {
    multispace0(input)
}

#[test]
fn identifier_agrees_with_combinators() {
    for text in texts(&['a', 'Z', '7', '_', ' ', 'é', '-'], 5) {
        match name(&text) {
            Ok((rest, found)) => assert_eq!(identifier(&text), Ok((rest, found)), "{:?}", text),
            Err(_) => assert!(identifier(&text).is_err(), "{:?}", text),
        }
    }
}

#[test]
fn spaces_agree_with_combinators() {
    for text in texts(&[' ', '\t', '\r', '\n', '\u{a0}', '\u{b}', 'a'], 5) {
        let (rest, _) = spaces(&text).unwrap();
        let source = Source::new(&text);
        assert_eq!(skip_spaces(&source, 0, source.len()), cursor_of(&text, rest), "{:?}", text);
    }
}

#[test]
fn string_literal_agrees_with_combinators() {
    for text in texts(&['\'', '"', '\\', 't', 'x', 'é'], 6) {
        let source = Source::new(&text);
        let step = parse_string(&source, 0, source.len());
        match string_literal(&text) {
            Ok((rest, found)) => assert_eq!(
                step,
                Step::Match(Node::String(found.to_string()), cursor_of(&text, rest)),
                "{:?}",
                text
            ),
            Err(_) => assert_eq!(step, Step::Miss, "{:?}", text),
        }
    }
}

#[test]
fn regex_literal_agrees_with_combinators() {
    for text in texts(&['#', '\'', '"', '\\', '/', 'x'], 6) {
        let source = Source::new(&text);
        let step = parse_regex_string(&source, 0, source.len());
        match regex_literal(&text) {
            Ok((rest, found)) => assert_eq!(
                step,
                Step::Match(Node::RegexString(found.to_string()), cursor_of(&text, rest)),
                "{:?}",
                text
            ),
            Err(_) => assert_eq!(step, Step::Miss, "{:?}", text),
        }
    }
}

#[test]
fn terminal_agrees_with_combinators() {
    for text in texts(&['a', '1', '_', ' ', '\n', ';', 'ß'], 5) {
        let source = Source::new(&text);
        let step = parse_terminal(&source, 0, source.len());
        match reference(&text) {
            Ok((rest, found)) => assert_eq!(
                step,
                Step::Match(Node::Terminal(found.to_string()), cursor_of(&text, rest)),
                "{:?}",
                text
            ),
            Err(_) => assert_eq!(step, Step::Miss, "{:?}", text),
        }
    }
}

/// The cursor at which the scan for an unbalanced closing bracket stops.
fn scan(text: &[char], open: char, close: char) -> Option<usize> {
    let mut depth = 0usize;
    let mut at = 0usize;
    while at < text.len() {
        if text[at] == '\\' {
            at += 2;
        } else if text[at] == open {
            depth += 1;
            at += 1;
        } else if text[at] == close {
            if depth == 0 {
                return Some(at);
            }
            depth -= 1;
            at += 1;
        } else {
            at += 1;
        }
    }
    if depth == 0 {
        Some(text.len())
    } else {
        None
    }
}

#[test]
fn unbalanced_scan_is_what_the_contract_says() {
    for (open, close) in [('(', ')'), ('[', ']'), ('{', '}')] {
        for text in texts(&[open, close, '\\', 'a', 'é'], 7) {
            let chars: Vec<char> = text.chars().collect();
            let found = match take_until_unbalanced(open, close)(&text) {
                Ok((_, inner)) => Some(inner.chars().count()),
                Err(_) => None,
            };
            assert_eq!(found, scan(&chars, open, close), "{:?}", text);
            if let Some(stop) = found {
                let inner: String = chars[..stop].iter().collect();
                assert_eq!(take_until_unbalanced(open, close)(&text).unwrap().1, inner);
            }
        }
    }
}

#[test]
fn unbalanced_scan_with_unusual_brackets() {
    for (open, close) in [('a', 'a'), ('\\', ')'), ('(', '\\'), ('é', 'ü')] {
        for text in texts(&[open, close, '\\', 'x'], 6) {
            let chars: Vec<char> = text.chars().collect();
            let found = match take_until_unbalanced(open, close)(&text) {
                Ok((_, inner)) => Some(inner.chars().count()),
                Err(_) => None,
            };
            assert_eq!(found, scan(&chars, open, close), "{:?}", text);
        }
    }
}

#[test]
fn delimited_node_agrees_with_the_scan() {
    for text in texts(&['(', ')', '\\', 'a'], 7) {
        let chars: Vec<char> = text.chars().collect();
        let source = Source::new(&text);
        let step = parse_delimited_node(&source, 0, source.len(), '(', ')');
        if chars.first() != Some(&'(') {
            assert_eq!(step, Step::Miss, "{:?}", text);
        } else {
            match scan(&chars[1..], '(', ')') {
                Some(stop) if stop + 1 < chars.len() => {
                    assert_eq!(step, Step::Match(stop + 1, stop + 2), "{:?}", text)
                }
                _ => assert!(matches!(step, Step::Abort(_)), "{:?}", text),
            }
        }
    }
}

/// A sequence of numbers that looks random and is the same in every run.
fn next_number(state: &mut u64) -> usize {
    *state = state.wrapping_mul(6364136223846793005).wrapping_add(1442695040888963407);
    (*state >> 33) as usize
}

#[test]
fn unbalanced_scan_on_longer_texts() {
    let mut state = 7;
    let alphabet = ['(', ')', '[', ']', '\\', 'a', ' ', 'é', '\''];
    for _ in 0..20000 {
        let length = next_number(&mut state) % 40;
        let text: String =
            (0..length).map(|_| alphabet[next_number(&mut state) % alphabet.len()]).collect();
        let chars: Vec<char> = text.chars().collect();
        for (open, close) in [('(', ')'), ('[', ']')] {
            let found = match take_until_unbalanced(open, close)(&text) {
                Ok((_, inner)) => Some(inner.chars().count()),
                Err(_) => None,
            };
            assert_eq!(found, scan(&chars, open, close), "{:?}", text);
        }
    }
}
