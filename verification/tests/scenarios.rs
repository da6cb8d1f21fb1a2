use ebnf::{get_grammar, Expression, Grammar, Node, RegexExtKind, SymbolKind};

fn string(text: &str) -> Node {
    Node::String(text.to_string())
}

fn terminal(name: &str) -> Node {
    Node::Terminal(name.to_string())
}

fn symbol(left: Node, kind: SymbolKind, right: Node) -> Node {
    Node::Symbol(Box::new(left), kind, Box::new(right))
}

fn group(inner: Node) -> Node {
    Node::Group(Box::new(inner))
}

fn postfix(inner: Node, kind: RegexExtKind) -> Node {
    Node::RegexExt(Box::new(inner), kind)
}

fn rhs_of(source: &str) -> Node {
    let grammar = get_grammar(source).unwrap();
    assert_eq!(grammar.expressions.len(), 1);
    grammar.expressions[0].rhs.clone()
}

#[test]
fn one_expression_per_terminated_rule() {
    let source = "a ::= 'x'; b ::= a | ';' ; c = [ a ] { b } ;\n";
    let grammar = get_grammar(source).unwrap();
    assert_eq!(grammar.expressions.len(), 3);
    assert_eq!(grammar.expressions[0].lhs, "a");
    assert_eq!(grammar.expressions[1].lhs, "b");
    assert_eq!(grammar.expressions[2].lhs, "c");
}

#[test]
fn empty_text_is_the_empty_grammar() {
    assert_eq!(get_grammar(""), Ok(Grammar { expressions: vec![] }));
}

#[test]
fn single_literal_rule() {
    let grammar = get_grammar("name ::= 'x';").unwrap();
    assert_eq!(
        grammar,
        Grammar { expressions: vec![Expression { lhs: "name".to_string(), rhs: string("x") }] }
    );
}

#[test]
fn alternation_chain_nests_to_the_right() {
    assert_eq!(
        rhs_of("f ::= 'a' | 'b' | 'c';"),
        symbol(
            string("a"),
            SymbolKind::Alternation,
            symbol(string("b"), SymbolKind::Alternation, string("c"))
        )
    );
}

#[test]
fn mixed_operators_nest_to_the_right() {
    assert_eq!(
        rhs_of("f ::= 'a' | 'b' , 'c' , 'd';"),
        symbol(
            string("a"),
            SymbolKind::Alternation,
            symbol(
                string("b"),
                SymbolKind::Concatenation,
                symbol(string("c"), SymbolKind::Concatenation, string("d"))
            )
        )
    );
}

#[test]
fn juxtaposition_is_multiple() {
    assert_eq!(rhs_of("f ::= 'a' 'b';"), Node::Multiple(vec![string("a"), string("b")]));
}

#[test]
fn three_juxtaposed_terms() {
    assert_eq!(
        rhs_of("f ::= a 'b' #'c';"),
        Node::Multiple(vec![terminal("a"), string("b"), Node::RegexString("c".to_string())])
    );
}

#[test]
fn postfix_binds_tighter_than_operator() {
    assert_eq!(
        rhs_of("f ::= 'a'* | 'b';"),
        symbol(
            postfix(string("a"), RegexExtKind::Repeat0),
            SymbolKind::Alternation,
            string("b")
        )
    );
}

#[test]
fn each_postfix_operator() {
    assert_eq!(rhs_of("f ::= a*;"), postfix(terminal("a"), RegexExtKind::Repeat0));
    assert_eq!(rhs_of("f ::= a+;"), postfix(terminal("a"), RegexExtKind::Repeat1));
    assert_eq!(rhs_of("f ::= a?;"), postfix(terminal("a"), RegexExtKind::Optional));
    assert_eq!(rhs_of("f ::= ( a ) ?;"), postfix(group(terminal("a")), RegexExtKind::Optional));
}

#[test]
fn postfix_on_right_operand() {
    assert_eq!(
        rhs_of("f ::= a , b+;"),
        symbol(
            terminal("a"),
            SymbolKind::Concatenation,
            postfix(terminal("b"), RegexExtKind::Repeat1)
        )
    );
}

#[test]
fn nested_balanced_brackets() {
    assert_eq!(
        rhs_of("f ::= ( ('a' 'b') 'c' );"),
        group(Node::Multiple(vec![
            group(Node::Multiple(vec![string("a"), string("b")])),
            string("c"),
        ]))
    );
}

#[test]
fn the_three_bracket_kinds() {
    assert_eq!(rhs_of("f ::= (a);"), group(terminal("a")));
    assert_eq!(rhs_of("f ::= [a];"), Node::Optional(Box::new(terminal("a"))));
    assert_eq!(rhs_of("f ::= {a};"), Node::Repeat(Box::new(terminal("a"))));
    assert_eq!(
        rhs_of("f ::= { [ ( a ) ] };"),
        Node::Repeat(Box::new(Node::Optional(Box::new(group(terminal("a"))))))
    );
}

#[test]
fn bracket_cut_at_its_own_closing_bracket() {
    assert_eq!(
        rhs_of("f ::= ( a ( b ) ) ( c );"),
        Node::Multiple(vec![
            group(Node::Multiple(vec![terminal("a"), group(terminal("b"))])),
            group(terminal("c")),
        ])
    );
}

#[test]
fn operators_inside_brackets() {
    assert_eq!(
        rhs_of("n ::= d ( ( '.' | ',' ) d? )?;"),
        Node::Multiple(vec![
            terminal("d"),
            postfix(
                group(Node::Multiple(vec![
                    group(symbol(string("."), SymbolKind::Alternation, string(","))),
                    postfix(terminal("d"), RegexExtKind::Optional),
                ])),
                RegexExtKind::Optional
            ),
        ])
    );
}

#[test]
fn escaped_quote_stays_undecoded() {
    let node = rhs_of(r"f ::= '\'';");
    assert_eq!(node, string(r"\'"));
    match node {
        Node::String(text) => assert_eq!(text.chars().count(), 2),
        _ => unreachable!(),
    }
}

#[test]
fn other_quote_inside_a_literal() {
    assert_eq!(rhs_of(r#"f ::= '"';"#), string("\""));
    assert_eq!(rhs_of(r#"f ::= "'";"#), string("'"));
    assert_eq!(rhs_of(r#"f ::= "it's";"#), string("it's"));
}

#[test]
fn regex_literals() {
    assert_eq!(rhs_of("f ::= #'[0-9]+';"), Node::RegexString("[0-9]+".to_string()));
    assert_eq!(rhs_of(r#"f ::= #"a\/b";"#), Node::RegexString(r"a\/b".to_string()));
}

#[test]
fn literal_may_hold_any_characters() {
    assert_eq!(rhs_of("f ::= 'é ∀ ( ;';"), string("é ∀ ( ;"));
}

#[test]
fn either_definition_sign() {
    assert_eq!(rhs_of("f = a;"), terminal("a"));
    assert_eq!(rhs_of("f::=a;"), terminal("a"));
    assert_eq!(rhs_of(" \t\r\n f \n = \n a \n ; \n"), terminal("a"));
}

#[test]
fn names_may_repeat() {
    let grammar = get_grammar("a ::= 'x'; a ::= 'y';").unwrap();
    assert_eq!(grammar.expressions.len(), 2);
    assert_eq!(grammar.expressions[0].lhs, grammar.expressions[1].lhs);
    assert_ne!(grammar.expressions[0].rhs, grammar.expressions[1].rhs);
}

#[test]
fn unicode_whitespace_between_rules() {
    let grammar = get_grammar("a ::= 'x';\u{a0}\u{2003}b ::= 'y';\u{3000}").unwrap();
    assert_eq!(grammar.expressions.len(), 2);
    assert_eq!(grammar.expressions[1].lhs, "b");
}

#[test]
fn what_follows_the_terms_inside_brackets_is_not_looked_at() {
    assert_eq!(rhs_of("f ::= ( a ; );"), group(terminal("a")));
    assert_eq!(rhs_of(r"f ::= ( a \) b );"), group(terminal("a")));
    assert_eq!(rhs_of("f ::= ( a | );"), group(terminal("a")));
}

#[test]
fn reading_twice_gives_the_same_trees() {
    let source = "n ::= d ( ( '.' | ',' ) d? )?; d ::= #'[0-9]+';";
    let first = get_grammar(source);
    let second = get_grammar(source);
    assert!(first.is_ok());
    assert_eq!(first, second);
    let bad = "n ::= ( d ;";
    assert!(get_grammar(bad).is_err());
    assert_eq!(get_grammar(bad), get_grammar(bad));
}

#[test]
fn a_long_grammar() {
    let mut source = String::new();
    for i in 0..4000 {
        source.push_str(&format!(
            "rule_{} ::= ( 'é{}' | other_{} )* , [ #'∀+' ] {{ \"x\" }} ;\n",
            i, i, i
        ));
    }
    let grammar = get_grammar(&source).unwrap();
    assert_eq!(grammar.expressions.len(), 4000);
    assert_eq!(grammar.expressions[3999].lhs, "rule_3999");
    assert_eq!(
        grammar.expressions[1234].rhs,
        Node::Multiple(vec![
            symbol(
                postfix(
                    group(symbol(
                        string("é1234"),
                        SymbolKind::Alternation,
                        terminal("other_1234")
                    )),
                    RegexExtKind::Repeat0
                ),
                SymbolKind::Concatenation,
                Node::Optional(Box::new(Node::RegexString("∀+".to_string())))
            ),
            Node::Repeat(Box::new(string("x"))),
        ])
    );
}

#[test]
fn deeply_nested_brackets() {
    let depth = 300;
    let mut source = String::from("r ::= ");
    for _ in 0..depth {
        source.push_str("( [ { ");
    }
    source.push('a');
    for _ in 0..depth {
        source.push_str(" } ] )");
    }
    source.push(';');
    let mut node = &get_grammar(&source).unwrap().expressions[0].rhs;
    for _ in 0..depth {
        node = match node {
            Node::Group(inner) => inner,
            _ => unreachable!(),
        };
        node = match node {
            Node::Optional(inner) => inner,
            _ => unreachable!(),
        };
        node = match node {
            Node::Repeat(inner) => inner,
            _ => unreachable!(),
        };
    }
    assert_eq!(*node, terminal("a"));
}
