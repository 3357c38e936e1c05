use grammar_intern::error::Error;
use grammar_intern::grammars::{InputGrammar, Variable, VariableType};
use grammar_intern::intern_symbols::{intern_symbols, variable_type_for_name, Interner};
use grammar_intern::rules::{MetadataParams, Rule, Symbol, SymbolType};

fn build_grammar(variables: Vec<Variable>) -> InputGrammar {
    InputGrammar {
        variables,
        name: "the_language".to_string(),
        extra_tokens: Vec::new(),
        external_tokens: Vec::new(),
        expected_conflicts: Vec::new(),
        variables_to_inline: Vec::new(),
        supertype_symbols: Vec::new(),
        word_token: None,
    }
}

#[test]
fn test_basic_repeat_expansion() {
    let grammar = intern_symbols(&build_grammar(vec![
        Variable::named("x", Rule::choice(vec![Rule::named("y"), Rule::named("_z")])),
        Variable::named("y", Rule::named("_z")),
        Variable::named("_z", Rule::string("a")),
    ]))
    .unwrap();

    assert_eq!(
        grammar.variables,
        vec![
            Variable::named(
                "x",
                Rule::choice(vec![Rule::non_terminal(1), Rule::non_terminal(2),])
            ),
            Variable::named("y", Rule::non_terminal(2)),
            Variable::hidden("_z", Rule::string("a")),
        ]
    );
}

#[test]
fn test_interning_external_token_names() {
    // Variable `y` is both an internal and an external token.
    // Variable `z` is just an external token.
    let mut input_grammar = build_grammar(vec![
        Variable::named(
            "w",
            Rule::choice(vec![Rule::named("x"), Rule::named("y"), Rule::named("z")]),
        ),
        Variable::named("x", Rule::string("a")),
        Variable::named("y", Rule::string("b")),
    ]);
    input_grammar
        .external_tokens
        .extend(vec![Rule::named("y"), Rule::named("z")]);

    let grammar = intern_symbols(&input_grammar).unwrap();

    // Variable `y` is referred to by its internal index.
    // Variable `z` is referred to by its external index.
    assert_eq!(
        grammar.variables,
        vec![
            Variable::named(
                "w",
                Rule::choice(vec![
                    Rule::non_terminal(1),
                    Rule::non_terminal(2),
                    Rule::external(1),
                ])
            ),
            Variable::named("x", Rule::string("a")),
            Variable::named("y", Rule::string("b")),
        ]
    );

    // The external token for `y` refers back to its internal index.
    assert_eq!(
        grammar.external_tokens,
        vec![
            Variable::named("y", Rule::non_terminal(2)),
            Variable::named("z", Rule::external(1)),
        ]
    );
}

#[test]
fn test_grammar_with_undefined_symbols() {
    let result = intern_symbols(&build_grammar(vec![Variable::named("x", Rule::named("y"))]));

    match result {
        Err(e) => assert_eq!(e.message(), "Undefined symbol `y`"),
        _ => panic!("Expected an error but got none"),
    }
}

#[test]
fn interning_twice_gives_equal_results() {
    let mut input = build_grammar(vec![
        Variable::named("a", Rule::seq(vec![Rule::named("b"), Rule::named("ext")])),
        Variable::named("b", Rule::repeat(Rule::pattern("[0-9]+"))),
    ]);
    input.external_tokens.push(Rule::named("ext"));
    input.supertype_symbols.push("b".to_string());
    let first = intern_symbols(&input);
    let second = intern_symbols(&input);
    assert_eq!(first, second);
    assert!(first.is_ok());
}

#[test]
fn references_carry_declaration_indices() {
    let mut input = build_grammar(vec![
        Variable::named("p", Rule::seq(vec![Rule::named("r"), Rule::named("q"), Rule::named("t")])),
        Variable::named("q", Rule::string("q")),
        Variable::named("r", Rule::string("r")),
    ]);
    input.external_tokens.push(Rule::named("s"));
    input.external_tokens.push(Rule::named("t"));
    let grammar = intern_symbols(&input).unwrap();
    assert_eq!(
        grammar.variables[0].rule,
        Rule::seq(vec![Rule::non_terminal(2), Rule::non_terminal(1), Rule::external(1)])
    );
    assert_eq!(grammar.external_tokens[0], Variable::named("s", Rule::external(0)));
}

#[test]
fn variable_wins_over_external_token_of_same_name() {
    let mut input = build_grammar(vec![
        Variable::named("start", Rule::named("shared")),
        Variable::named("shared", Rule::string("x")),
    ]);
    input.external_tokens.push(Rule::named("shared"));
    input.supertype_symbols.push("shared".to_string());
    input.variables_to_inline.push("shared".to_string());
    input.word_token = Some("shared".to_string());
    let grammar = intern_symbols(&input).unwrap();
    let nt = Symbol { kind: SymbolType::NonTerminal, index: 1 };
    assert_eq!(grammar.variables[0].rule, Rule::Symbol(nt));
    assert_eq!(grammar.supertype_symbols, vec![nt]);
    assert_eq!(grammar.variables_to_inline, vec![nt]);
    assert_eq!(grammar.word_token, Some(nt));
    assert_eq!(grammar.external_tokens[0].rule, Rule::Symbol(nt));
}

#[test]
fn hidden_start_rule_is_refused() {
    let input = build_grammar(vec![
        Variable::named("_start", Rule::named("undefined")),
        Variable::named("other", Rule::string("o")),
    ]);
    let result = intern_symbols(&input);
    assert_eq!(result, Err(Error::InvalidStartRule));
    assert_eq!(
        Error::InvalidStartRule.message(),
        "A grammar's start rule must be visible."
    );
}

#[test]
fn undefined_name_in_extra_token_is_reported() {
    let mut input = build_grammar(vec![Variable::named("x", Rule::string("a"))]);
    input.extra_tokens.push(Rule::named("comment"));
    let result = intern_symbols(&input);
    assert_eq!(result, Err(Error::UndefinedSymbol("comment".to_string())));
}

#[test]
fn undefined_supertype_is_reported() {
    let mut input = build_grammar(vec![Variable::named("x", Rule::string("a"))]);
    input.supertype_symbols.push("x".to_string());
    input.supertype_symbols.push("missing".to_string());
    let result = intern_symbols(&input);
    assert_eq!(result, Err(Error::UndefinedSymbol("missing".to_string())));
}

#[test]
fn undefined_conflict_name_is_reported() {
    let mut input = build_grammar(vec![Variable::named("x", Rule::string("a"))]);
    input.expected_conflicts.push(vec!["x".to_string()]);
    input.expected_conflicts.push(vec!["x".to_string(), "nope".to_string()]);
    let result = intern_symbols(&input);
    assert_eq!(result, Err(Error::UndefinedSymbol("nope".to_string())));
}

#[test]
fn expected_conflicts_keep_group_order() {
    let mut input = build_grammar(vec![
        Variable::named("x", Rule::string("a")),
        Variable::named("y", Rule::string("b")),
    ]);
    input.expected_conflicts.push(vec!["y".to_string(), "x".to_string()]);
    input.expected_conflicts.push(vec!["x".to_string()]);
    let grammar = intern_symbols(&input).unwrap();
    assert_eq!(
        grammar.expected_conflicts,
        vec![
            vec![Symbol::non_terminal(1), Symbol::non_terminal(0)],
            vec![Symbol::non_terminal(0)],
        ]
    );
}

#[test]
fn undefined_word_token_is_reported() {
    let mut input = build_grammar(vec![Variable::named("x", Rule::string("a"))]);
    input.word_token = Some("identifier".to_string());
    let result = intern_symbols(&input);
    assert_eq!(result, Err(Error::UndefinedSymbol("identifier".to_string())));
}

#[test]
fn first_error_in_declaration_order_wins() {
    let mut input = build_grammar(vec![
        Variable::named("x", Rule::seq(vec![Rule::named("first"), Rule::named("second")])),
    ]);
    input.supertype_symbols.push("third".to_string());
    let result = intern_symbols(&input);
    assert_eq!(result, Err(Error::UndefinedSymbol("first".to_string())));
    assert_eq!(result.unwrap_err().message(), "Undefined symbol `first`");
}

#[test]
fn unresolved_inline_names_are_dropped() {
    let mut input = build_grammar(vec![
        Variable::named("x", Rule::string("a")),
        Variable::named("_y", Rule::string("b")),
    ]);
    input.variables_to_inline.push("ghost".to_string());
    input.variables_to_inline.push("_y".to_string());
    input.variables_to_inline.push("phantom".to_string());
    let grammar = intern_symbols(&input).unwrap();
    assert_eq!(grammar.variables_to_inline, vec![Symbol::non_terminal(1)]);
}

#[test]
fn trees_without_names_are_unchanged() {
    let build = || {
        Rule::choice(vec![
            Rule::seq(vec![Rule::string("a"), Rule::Blank, Rule::pattern("b+")]),
            Rule::repeat(Rule::string("c")),
            Rule::Metadata {
                params: MetadataParams {
                    precedence: 3,
                    field_name: Some("f".to_string()),
                    is_token: true,
                },
                rule: Box::new(Rule::string("d")),
            },
        ])
    };
    let grammar = intern_symbols(&build_grammar(vec![Variable::named("x", build())])).unwrap();
    assert_eq!(grammar.variables[0].rule, build());
}

#[test]
fn anonymous_external_token_has_empty_name() {
    let mut input = build_grammar(vec![Variable::named("x", Rule::string("a"))]);
    input.external_tokens.push(Rule::string("\n"));
    input.external_tokens.push(Rule::named("_heredoc"));
    let grammar = intern_symbols(&input).unwrap();
    assert_eq!(
        grammar.external_tokens,
        vec![
            Variable { name: String::new(), kind: VariableType::Anonymous, rule: Rule::string("\n") },
            Variable::hidden("_heredoc", Rule::external(1)),
        ]
    );
}

#[test]
fn intern_name_resolves_in_priority_order() {
    let mut input = build_grammar(vec![
        Variable::named("a", Rule::string("a")),
        Variable::named("b", Rule::string("b")),
    ]);
    input.external_tokens.push(Rule::string("anon"));
    input.external_tokens.push(Rule::named("c"));
    input.external_tokens.push(Rule::named("b"));
    let interner = Interner { grammar: &input };
    assert_eq!(interner.intern_name(&"b".to_string()), Some(Symbol::non_terminal(1)));
    assert_eq!(interner.intern_name(&"c".to_string()), Some(Symbol::external(1)));
    assert_eq!(interner.intern_name(&"d".to_string()), None);
    assert_eq!(
        interner.intern_rule(&Rule::named("d")),
        Err(Error::UndefinedSymbol("d".to_string()))
    );
}

#[test]
fn names_with_leading_underscore_are_hidden() {
    assert_eq!(variable_type_for_name("_x"), VariableType::Hidden);
    assert_eq!(variable_type_for_name("x_"), VariableType::Named);
    assert_eq!(variable_type_for_name(""), VariableType::Named);
    assert_eq!(variable_type_for_name("_"), VariableType::Hidden);
}
