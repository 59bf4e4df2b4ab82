use simplex::tokenizer::Tokenizer;
use simplex::tokens::{ArithOperation, CmpOperation, Decimal, Token};

fn dec(neg: bool, mant: u64, scale: u32) -> Decimal {
    Decimal { neg, mant, scale }
}

fn collect_tokens(input: &str) -> Vec<Token> {
    let mut iterator = Tokenizer::new(input).into_iter();
    let mut tokens = Vec::new();
    while let Some(t) = iterator.next() {
        tokens.push(t);
    }
    tokens
}

#[test]
fn test_tokenizer_one_liners() {
    {
        let tokens = collect_tokens("(1/2.5 <= x_2 - 2.01)");
        assert!(tokens[0] == Token::LParen('('));
        assert!(tokens[1] == Token::Num(dec(false, 1, 0)));
        assert!(tokens[2] == Token::ArithOp(ArithOperation::Div));
        assert!(tokens[3] == Token::Num(dec(false, 25, 1)));
        assert!(tokens[4] == Token::Cmp(CmpOperation::Leq));
        assert!(tokens[5] == Token::Variable("x_2".to_string(), dec(false, 1, 0)));
        assert!(tokens[6] == Token::ArithOp(ArithOperation::Sub));
        assert!(tokens[7] == Token::Num(dec(false, 201, 2)));
        assert!(tokens[8] == Token::RParen(')'));
        assert!(tokens.len() == 9);
    }
    {
        let tokens = collect_tokens("max x /-2.1] min stru");
        assert!(tokens[0] == Token::Fun("max".to_string()));
        assert!(tokens[1] == Token::Variable("x".to_string(), dec(false, 1, 0)));
        assert!(tokens[2] == Token::ArithOp(ArithOperation::Div));
        assert!(tokens[3] == Token::Num(dec(true, 21, 1)));
        assert!(tokens[4] == Token::RParen(']'));
        assert!(tokens[5] == Token::Fun("min".to_string()));
        assert!(tokens[6] == Token::Variable("stru".to_string(), dec(false, 1, 0)));
        assert!(tokens.len() == 7);
    }
    {
        let tokens = collect_tokens("1 + 2");
        assert!(tokens.len() == 3);
        assert!(tokens[0] == Token::Num(dec(false, 1, 0)));
        assert!(tokens[1] == Token::ArithOp(ArithOperation::Add));
        assert!(tokens[2] == Token::Num(dec(false, 2, 0)));
    }
    {
        let tokens = collect_tokens("max    x    /    -2.1]        min     -stru ");
        assert!(tokens[0] == Token::Fun("max".to_string()));
        assert!(tokens[1] == Token::Variable("x".to_string(), dec(false, 1, 0)));
        assert!(tokens[2] == Token::ArithOp(ArithOperation::Div));
        assert!(tokens[3] == Token::Num(dec(true, 21, 1)));
        assert!(tokens[4] == Token::RParen(']'));
        assert!(tokens[5] == Token::Fun("min".to_string()));
        assert!(tokens[6] == Token::Variable("stru".to_string(), dec(true, 1, 0)));
        assert!(tokens.len() == 7);
    }
}

#[test]
fn test_tokenizer_multi_line() {
    let input = "
max {x1 - x2  = -1.291mi}
st {
    -1.21x1 / -a >= 1000
}";
    let tokens = collect_tokens(input);
    let truth = vec![
        Token::EOL,
        Token::Fun("max".to_string()),
        Token::LParen('{'),
        Token::Variable("x1".to_string(), dec(false, 1, 0)),
        Token::ArithOp(ArithOperation::Sub),
        Token::Variable("x2".to_string(), dec(false, 1, 0)),
        Token::Cmp(CmpOperation::Eq),
        Token::Variable("mi".to_string(), dec(true, 1291, 3)),
        Token::RParen('}'),
        Token::EOL,
        Token::Fun("st".to_string()),
        Token::LParen('{'),
        Token::EOL,
        Token::Variable("x1".to_string(), dec(true, 121, 2)),
        Token::ArithOp(ArithOperation::Div),
        Token::Variable("a".to_string(), dec(true, 1, 0)),
        Token::Cmp(CmpOperation::Geq),
        Token::Num(dec(false, 1000, 0)),
        Token::EOL,
        Token::RParen('}'),
    ];
    assert!(tokens == truth);
    assert!(tokens.len() == truth.len());
}

#[test]
fn test_fused_coefficient_is_one_token() {
    // A signed numeric coefficient fused to a variable name is one token.
    let tokens = collect_tokens("-1.21x1");
    assert!(tokens.len() == 1);
    assert!(tokens[0] == Token::Variable("x1".to_string(), dec(true, 121, 2)));
}

#[test]
fn test_peek_then_next_agree() {
    let mut iterator = Tokenizer::new("max { x }").into_iter();
    let peeked = iterator.peek();
    let pulled = iterator.next();
    assert!(peeked == pulled);
    assert!(pulled == Some(Token::Fun("max".to_string())));
}

#[test]
fn test_keyword_with_trailing_letter_is_a_variable() {
    // "maxx" is not the keyword "max": the keyword recognizer dies on the
    // extra letter and the variable recognizer wins.
    let tokens = collect_tokens("maxx");
    assert!(tokens.len() == 1);
    assert!(tokens[0] == Token::Variable("maxx".to_string(), dec(false, 1, 0)));
}
