use simplex::syntax::construct_ast;
use simplex::tokens::Token;

#[test]
fn test_ast() {
    let input = "
max {x1 - x2 }
st {
    -1.21x1 / -a >= 1000
}
";
    let ast = construct_ast(input);
    assert!(ast.is_ok());
}

// The tokenizer's tie-break can accept input the grammar means to reject;
// that behaviour is deliberate and kept stable (see the tokenizer's notes).
#[test]
fn test_ast_accidentally_accepted() {
    let input = "
max {x1 - - x2 }
st {
    -1.21+/x1 / -a >= 1000
}
";
    let ast = construct_ast(input);
    assert!(ast.is_ok());
}

#[test]
fn test_trailing_operator_is_an_error() {
    // A dangling additive operator is a parse error, not a truncation.
    let ast = construct_ast("max {1 - }");
    assert!(ast.is_err());
}

#[test]
fn test_parse_error_payload() {
    let input = "
max {x1 - x2 }
st {
    -1.21x1 >= abc
}
";
    let err = construct_ast(input).unwrap_err();
    assert_eq!(err.line_number, 4);
    assert_eq!(err.expected, "expected number".to_string());
    assert_eq!(err.line_text, "    -1.21x1 >= abc".to_string());
    assert!(matches!(err.got, Some(Token::Variable(_, _))));
}

#[test]
fn test_missing_objective_keyword_is_an_error() {
    let err = construct_ast("1 + 2").unwrap_err();
    assert_eq!(err.expected, "expected objective declaration".to_string());
    assert!(matches!(err.got, Some(Token::Num(_))));
}

#[test]
fn test_unexpected_end_of_input() {
    let err = construct_ast("max {x1 - x2 }").unwrap_err();
    assert_eq!(err.expected, "expected line break".to_string());
    assert!(err.got.is_none());
}

#[test]
fn test_missing_open_brace_is_an_error() {
    let err = construct_ast("max x").unwrap_err();
    assert_eq!(err.expected, "expected '{'".to_string());
    assert!(matches!(err.got, Some(Token::Variable(_, _))));
}

#[test]
fn test_mismatched_close_bracket_message() {
    let err = construct_ast("max {(x ]}").unwrap_err();
    assert_eq!(err.expected, "expected ')'".to_string());
    assert!(matches!(err.got, Some(Token::RParen(']'))));
}
