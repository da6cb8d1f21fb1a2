use ebnf::parser::{
    identifier_end, literal_close, parse_alternation, parse_concatenation, parse_delimited_node,
    parse_group, parse_lhs, parse_multiple, parse_node, parse_optional, parse_regex_ext,
    parse_regex_string, parse_repeat, parse_rhs, parse_string, parse_symbol, parse_terminal,
    skip_spaces, skip_whitespace, Step,
};
use ebnf::text::Source;
use ebnf::{
    identifier, Context, FailureKind, Frame, Node, ParseFailure, RegexExtKind, SymbolKind,
};

fn string(text: &str) -> Node {
    Node::String(text.to_string())
}

fn terminal(name: &str) -> Node {
    Node::Terminal(name.to_string())
}

fn incomplete(position: usize) -> Vec<Frame> {
    vec![Frame { position, context: Context::IncompleteDelimitedNode }]
}

#[test]
fn identifier_splits_the_text() {
    assert_eq!(identifier("abc def"), Ok((" def", "abc")));
    assert_eq!(identifier("a_1b2__ ::="), Ok((" ::=", "a_1b2__")));
    assert_eq!(identifier("_"), Ok(("", "_")));
    assert_eq!(identifier("_9x-y"), Ok(("-y", "_9x")));
    assert_eq!(identifier("Zaé"), Ok(("é", "Za")));
}

#[test]
fn identifier_fails_without_consuming() {
    let failure = ParseFailure {
        kind: FailureKind::Recognition,
        trace: vec![Frame { position: 0, context: Context::Identifier }],
    };
    assert_eq!(identifier(""), Err(failure.clone()));
    assert_eq!(identifier(" a"), Err(failure.clone()));
    assert_eq!(identifier("9a"), Err(failure.clone()));
    assert_eq!(identifier("ä"), Err(failure));
}

#[test]
fn source_lays_out_characters() {
    let source = Source::new("aé∀b");
    assert_eq!(source.len(), 4);
    assert_eq!(source.at(1), 'é');
    assert_eq!(source.at(3), 'b');
    assert_eq!(source.slice(1, 3), "é∀");
    assert_eq!(source.copy(0, 4), "aé∀b".to_string());
    assert_eq!(source.slice(2, 2), "");
}

#[test]
fn spaces_and_whitespace() {
    let source = Source::new(" \t\r\n\u{b}x \u{a0} y");
    assert_eq!(skip_spaces(&source, 0, 10), 4);
    assert_eq!(skip_spaces(&source, 0, 2), 2);
    assert_eq!(skip_spaces(&source, 5, 10), 5);
    assert_eq!(skip_whitespace(&source, 0), 5);
    assert_eq!(skip_whitespace(&source, 6), 9);
    assert_eq!(skip_whitespace(&source, 10), 10);
}

#[test]
fn identifier_end_stops_at_the_window() {
    let source = Source::new("abc1_ d");
    assert_eq!(identifier_end(&source, 0, 7), Some(5));
    assert_eq!(identifier_end(&source, 0, 2), Some(2));
    assert_eq!(identifier_end(&source, 3, 7), None);
    assert_eq!(identifier_end(&source, 4, 7), Some(5));
    assert_eq!(identifier_end(&source, 7, 7), None);
}

#[test]
fn literal_close_finds_the_quote() {
    let source = Source::new(r"ab\'c' '");
    assert_eq!(literal_close(&source, 0, 8, '\''), Some(5));
    assert_eq!(literal_close(&source, 0, 5, '\''), None);
    assert_eq!(literal_close(&source, 6, 8, '\''), Some(7));
    assert_eq!(literal_close(&source, 5, 8, '\''), None);
    assert_eq!(literal_close(&source, 0, 8, '"'), None);
}

#[test]
fn string_literals() {
    let source = Source::new(r#"'a' "b\"" 'c"#);
    assert_eq!(parse_string(&source, 0, 12), Step::Match(string("a"), 3));
    assert_eq!(parse_string(&source, 4, 12), Step::Match(string(r#"b\""#), 9));
    assert_eq!(parse_string(&source, 10, 12), Step::Miss);
    assert_eq!(parse_string(&source, 3, 12), Step::Miss);
    assert_eq!(parse_string(&source, 0, 2), Step::Miss);
}

#[test]
fn regex_literals_need_the_hash() {
    let source = Source::new("#'a+' 'b' #");
    assert_eq!(
        parse_regex_string(&source, 0, 11),
        Step::Match(Node::RegexString("a+".to_string()), 5)
    );
    assert_eq!(parse_regex_string(&source, 6, 11), Step::Miss);
    assert_eq!(parse_regex_string(&source, 10, 11), Step::Miss);
    assert_eq!(parse_string(&source, 0, 11), Step::Miss);
}

#[test]
fn terminal_takes_the_spaces_around_it() {
    let source = Source::new("  abc  ;");
    assert_eq!(parse_terminal(&source, 0, 8), Step::Match(terminal("abc"), 7));
    assert_eq!(parse_terminal(&source, 3, 8), Step::Match(terminal("bc"), 7));
    assert_eq!(parse_terminal(&source, 7, 8), Step::Miss);
}

#[test]
fn postfix_operators() {
    let source = Source::new(" * + ? x");
    assert_eq!(parse_regex_ext(&source, 0, 8), Some((RegexExtKind::Repeat0, 2)));
    assert_eq!(parse_regex_ext(&source, 2, 8), Some((RegexExtKind::Repeat1, 4)));
    assert_eq!(parse_regex_ext(&source, 4, 8), Some((RegexExtKind::Optional, 6)));
    assert_eq!(parse_regex_ext(&source, 6, 8), None);
    assert_eq!(parse_regex_ext(&source, 8, 8), None);
}

#[test]
fn delimited_node_finds_the_matching_bracket() {
    let source = Source::new("(a(b)c)d)");
    assert_eq!(parse_delimited_node(&source, 0, 9, '(', ')'), Step::Match(6, 7));
    assert_eq!(parse_delimited_node(&source, 2, 9, '(', ')'), Step::Match(4, 5));
    assert_eq!(parse_delimited_node(&source, 0, 6, '(', ')'), Step::Abort(incomplete(0)));
    assert_eq!(parse_delimited_node(&source, 1, 9, '(', ')'), Step::Miss);
    assert_eq!(parse_delimited_node(&source, 0, 9, '[', ']'), Step::Miss);
    assert_eq!(parse_delimited_node(&source, 9, 9, '(', ')'), Step::Miss);
}

#[test]
fn delimited_node_skips_what_a_backslash_hides() {
    let source = Source::new(r"(a\)b)c");
    assert_eq!(parse_delimited_node(&source, 0, 7, '(', ')'), Step::Match(5, 6));
    let source = Source::new(r"(a\(b)c");
    assert_eq!(parse_delimited_node(&source, 0, 7, '(', ')'), Step::Match(5, 6));
    let source = Source::new(r"(a\\)c");
    assert_eq!(parse_delimited_node(&source, 0, 6, '(', ')'), Step::Match(4, 5));
    let source = Source::new("(a\\");
    assert_eq!(parse_delimited_node(&source, 0, 3, '(', ')'), Step::Abort(incomplete(0)));
    let source = Source::new("(é(∀)ß)");
    assert_eq!(parse_delimited_node(&source, 0, 7, '(', ')'), Step::Match(6, 7));
}

#[test]
fn delimited_node_without_a_closing_bracket() {
    let source = Source::new("(ab");
    assert_eq!(parse_delimited_node(&source, 0, 3, '(', ')'), Step::Abort(incomplete(0)));
    let source = Source::new("((ab)");
    assert_eq!(parse_delimited_node(&source, 0, 5, '(', ')'), Step::Abort(incomplete(0)));
    let source = Source::new("(");
    assert_eq!(parse_delimited_node(&source, 0, 1, '(', ')'), Step::Abort(incomplete(0)));
}

#[test]
fn brackets_wrap_their_inside() {
    let source = Source::new("(a) [b] {c} ()");
    assert_eq!(parse_group(&source, 0, 14), Step::Match(Node::Group(Box::new(terminal("a"))), 3));
    assert_eq!(
        parse_optional(&source, 4, 14),
        Step::Match(Node::Optional(Box::new(terminal("b"))), 7)
    );
    assert_eq!(
        parse_repeat(&source, 8, 14),
        Step::Match(Node::Repeat(Box::new(terminal("c"))), 11)
    );
    assert_eq!(parse_group(&source, 12, 14), Step::Miss);
    assert_eq!(parse_group(&source, 4, 14), Step::Miss);
    assert_eq!(parse_optional(&source, 0, 14), Step::Miss);
    assert_eq!(parse_repeat(&source, 0, 14), Step::Miss);
}

#[test]
fn operators_take_a_node() {
    let source = Source::new(",a |b ,");
    assert_eq!(
        parse_concatenation(&source, 0, 7),
        Step::Match(
            (
                SymbolKind::Concatenation,
                Node::Symbol(
                    Box::new(terminal("a")),
                    SymbolKind::Alternation,
                    Box::new(terminal("b"))
                )
            ),
            6
        )
    );
    assert_eq!(
        parse_concatenation(&source, 0, 3),
        Step::Match((SymbolKind::Concatenation, terminal("a")), 3)
    );
    assert_eq!(parse_alternation(&source, 0, 7), Step::Miss);
    assert_eq!(
        parse_alternation(&source, 3, 7),
        Step::Match((SymbolKind::Alternation, terminal("b")), 6)
    );
    assert_eq!(
        parse_symbol(&source, 2, 7),
        Step::Match((SymbolKind::Alternation, terminal("b")), 6)
    );
    assert_eq!(parse_symbol(&source, 5, 7), Step::Miss);
    assert_eq!(parse_concatenation(&source, 6, 7), Step::Miss);
}

#[test]
fn node_leaves_an_operator_without_operand() {
    let source = Source::new("a | ;");
    assert_eq!(parse_node(&source, 0, 5), Step::Match(terminal("a"), 2));
    let source = Source::new("'a' , ");
    assert_eq!(parse_node(&source, 0, 6), Step::Match(string("a"), 3));
}

#[test]
fn node_aborts_on_an_open_bracket() {
    let source = Source::new("a | [ b");
    assert_eq!(parse_node(&source, 0, 7), Step::Abort(incomplete(4)));
    assert_eq!(parse_multiple(&source, 0, 7), Step::Abort(incomplete(4)));
    let source = Source::new("a [ b");
    assert_eq!(parse_node(&source, 0, 5), Step::Match(terminal("a"), 2));
    assert_eq!(parse_multiple(&source, 0, 5), Step::Abort(incomplete(2)));
}

#[test]
fn multiple_collects_nodes() {
    let source = Source::new("  a 'b' ; c");
    assert_eq!(
        parse_multiple(&source, 0, 11),
        Step::Match(Node::Multiple(vec![terminal("a"), string("b")]), 7)
    );
    assert_eq!(parse_multiple(&source, 4, 11), Step::Match(string("b"), 7));
    assert_eq!(parse_multiple(&source, 7, 11), Step::Miss);
    assert_eq!(parse_multiple(&source, 11, 11), Step::Miss);
}

#[test]
fn left_hand_side() {
    let source = Source::new("  ab ::= c = d : e");
    assert_eq!(parse_lhs(&source, 0, 18), Ok((2, 4, 8)));
    assert_eq!(parse_lhs(&source, 8, 18), Ok((9, 10, 12)));
    assert_eq!(
        parse_lhs(&source, 12, 18),
        Err(ParseFailure {
            kind: FailureKind::MalformedRule,
            trace: vec![Frame { position: 15, context: Context::Definition }],
        })
    );
    assert_eq!(
        parse_lhs(&source, 4, 18),
        Err(ParseFailure {
            kind: FailureKind::MalformedRule,
            trace: vec![Frame { position: 5, context: Context::Identifier }],
        })
    );
}

#[test]
fn right_hand_side() {
    let source = Source::new(" a b ; ( c");
    assert_eq!(
        parse_rhs(&source, 0, 10),
        Ok((Node::Multiple(vec![terminal("a"), terminal("b")]), 6))
    );
    assert_eq!(
        parse_rhs(&source, 0, 5),
        Err(ParseFailure {
            kind: FailureKind::MalformedRule,
            trace: vec![Frame { position: 5, context: Context::Terminator }],
        })
    );
    assert_eq!(
        parse_rhs(&source, 5, 10),
        Err(ParseFailure {
            kind: FailureKind::MalformedRule,
            trace: vec![Frame { position: 5, context: Context::Term }],
        })
    );
    assert_eq!(
        parse_rhs(&source, 6, 10),
        Err(ParseFailure {
            kind: FailureKind::UnbalancedDelimiter,
            trace: vec![Frame { position: 7, context: Context::IncompleteDelimitedNode }],
        })
    );
}
