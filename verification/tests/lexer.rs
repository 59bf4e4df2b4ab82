use simplex::token_automata::{
    TAArithOp, TACmp, TAFun, TALParan, TANum, TARParan, TAVariable, Tokenable,
};
use simplex::tokens::{ArithOperation, CmpOperation, Decimal, Token};

fn tokenize(automata: &mut dyn Tokenable, s: &str) -> Option<Token> {
    for c in s.chars() {
        automata.consume_char(c);
    }
    automata.tokenize()
}

fn dec(neg: bool, mant: u64, scale: u32) -> Decimal {
    Decimal { neg, mant, scale }
}

#[test]
fn test_cmp() {
    {
        let s = "=";
        let mut automata = TACmp::new();
        let automata: &mut dyn Tokenable = &mut automata;
        assert!(Some(Token::Cmp(CmpOperation::Eq)) == tokenize(automata, s));
    }
    {
        let s = "<";
        let mut automata = TACmp::new();
        let automata: &mut dyn Tokenable = &mut automata;
        assert!(Some(Token::Cmp(CmpOperation::Lt)) == tokenize(automata, s));
    }
    {
        let s = "<=";
        let mut automata = TACmp::new();
        let automata: &mut dyn Tokenable = &mut automata;
        assert!(Some(Token::Cmp(CmpOperation::Leq)) == tokenize(automata, s));
    }
    {
        let s = ">=";
        let mut automata = TACmp::new();
        let automata: &mut dyn Tokenable = &mut automata;
        assert!(Some(Token::Cmp(CmpOperation::Geq)) == tokenize(automata, s));
    }
    {
        let s = "==";
        let mut automata = TACmp::new();
        let automata: &mut dyn Tokenable = &mut automata;
        assert!(tokenize(automata, s).is_none());
    }
    {
        let s = ".=";
        let mut automata = TACmp::new();
        let automata: &mut dyn Tokenable = &mut automata;
        assert!(tokenize(automata, s).is_none());
    }
}

#[test]
fn test_var() {
    {
        let s = "x";
        let mut automata = TAVariable::new();
        let automata: &mut dyn Tokenable = &mut automata;
        assert!(Some(Token::Variable(String::from(s), dec(false, 1, 0))) == tokenize(automata, s));
    }
    {
        let s = "-1.209xa_1";
        let mut automata = TAVariable::new();
        let automata: &mut dyn Tokenable = &mut automata;
        let t = tokenize(automata, s).unwrap();
        if let Token::Variable(s, n) = t {
            assert!(s == String::from("xa_1"));
            assert!(dec(true, 1209, 3) == n);
        } else {
            panic!("Not a variable");
        }
    }
    {
        let s = "xa_";
        let mut automata = TAVariable::new();
        let automata: &mut dyn Tokenable = &mut automata;
        assert!(Some(Token::Variable(String::from(s), dec(false, 1, 0))) == tokenize(automata, s));
    }
    {
        let s = "a_19";
        let mut automata = TAVariable::new();
        let automata: &mut dyn Tokenable = &mut automata;
        assert!(Some(Token::Variable(String::from(s), dec(false, 1, 0))) == tokenize(automata, s));
    }
    {
        let s = "1_a";
        let mut automata = TAVariable::new();
        let automata: &mut dyn Tokenable = &mut automata;
        assert!(
            Some(Token::Variable(String::from("_a"), dec(false, 1, 0))) == tokenize(automata, s)
        );
    }
    {
        let s = "10";
        let mut automata = TAVariable::new();
        let automata: &mut dyn Tokenable = &mut automata;
        assert!(tokenize(automata, s).is_none());
    }
}

#[test]
fn test_op() {
    {
        let s = "--";
        let mut automata = TAArithOp::new();
        let automata: &mut dyn Tokenable = &mut automata;
        assert!(tokenize(automata, s).is_none());
    }
    {
        let s = "+";
        let mut automata = TAArithOp::new();
        let automata: &mut dyn Tokenable = &mut automata;
        assert!(Some(Token::ArithOp(ArithOperation::Add)) == tokenize(automata, s));
    }
    {
        let s = "*";
        let mut automata = TAArithOp::new();
        let automata: &mut dyn Tokenable = &mut automata;
        assert!(Some(Token::ArithOp(ArithOperation::Mul)) == tokenize(automata, s));
    }
    {
        let s = "/";
        let mut automata = TAArithOp::new();
        let automata: &mut dyn Tokenable = &mut automata;
        assert!(Some(Token::ArithOp(ArithOperation::Div)) == tokenize(automata, s));
    }
    {
        let s = "-";
        let mut automata = TAArithOp::new();
        let automata: &mut dyn Tokenable = &mut automata;
        assert!(Some(Token::ArithOp(ArithOperation::Sub)) == tokenize(automata, s));
    }
}

#[test]
fn test_paren() {
    {
        let s = "([";
        let mut automata = TALParan::new();
        let automata: &mut dyn Tokenable = &mut automata;
        assert!(tokenize(automata, s).is_none());
    }
    {
        let s = "[";
        let mut automata = TALParan::new();
        let automata: &mut dyn Tokenable = &mut automata;
        assert!(Some(Token::LParen('[')) == tokenize(automata, s));
    }
    {
        let s = "(";
        let mut automata = TALParan::new();
        let automata: &mut dyn Tokenable = &mut automata;
        assert!(Some(Token::LParen('(')) == tokenize(automata, s));
    }
    {
        let s = "{";
        let mut automata = TALParan::new();
        let automata: &mut dyn Tokenable = &mut automata;
        assert!(Some(Token::LParen('{')) == tokenize(automata, s));
    }
    {
        let s = ")]";
        let mut automata = TARParan::new();
        let automata: &mut dyn Tokenable = &mut automata;
        assert!(tokenize(automata, s).is_none());
    }
    {
        let s = "]";
        let mut automata = TARParan::new();
        let automata: &mut dyn Tokenable = &mut automata;
        assert!(Some(Token::RParen(']')) == tokenize(automata, s));
    }
    {
        let s = ")";
        let mut automata = TARParan::new();
        let automata: &mut dyn Tokenable = &mut automata;
        assert!(Some(Token::RParen(')')) == tokenize(automata, s));
    }
    {
        let s = "}";
        let mut automata = TARParan::new();
        let automata: &mut dyn Tokenable = &mut automata;
        assert!(Some(Token::RParen('}')) == tokenize(automata, s));
    }
}

#[test]
fn test_num() {
    {
        let s = "yav";
        let mut automata = TANum::new();
        let automata: &mut dyn Tokenable = &mut automata;
        assert!(tokenize(automata, s).is_none());
    }
    {
        let s = "1";
        let mut automata = TANum::new();
        let automata: &mut dyn Tokenable = &mut automata;
        assert!(tokenize(automata, s) == Some(Token::Num(dec(false, 1, 0))));
    }
    {
        let s = "1.0";
        let mut automata = TANum::new();
        let automata: &mut dyn Tokenable = &mut automata;
        assert!(tokenize(automata, s) == Some(Token::Num(dec(false, 1, 0))));
    }
    {
        let s = "1.235";
        let mut automata = TANum::new();
        let automata: &mut dyn Tokenable = &mut automata;
        assert!(tokenize(automata, s) == Some(Token::Num(dec(false, 1235, 3))));
    }
    {
        let s = "1337";
        let mut automata = TANum::new();
        let automata: &mut dyn Tokenable = &mut automata;
        assert!(tokenize(automata, s) == Some(Token::Num(dec(false, 1337, 0))));
    }
    {
        let s = "--1337.211028";
        let mut automata = TANum::new();
        let automata: &mut dyn Tokenable = &mut automata;
        assert!(tokenize(automata, s).is_none());
    }
    {
        let s = "-127.i211028";
        let mut automata = TANum::new();
        let automata: &mut dyn Tokenable = &mut automata;
        assert!(tokenize(automata, s).is_none());
    }
    {
        let s = "-1337.42";
        let mut automata = TANum::new();
        let automata: &mut dyn Tokenable = &mut automata;
        assert!(tokenize(automata, s) == Some(Token::Num(dec(true, 133742, 2))));
    }
    {
        let s = "0.4269";
        let mut automata = TANum::new();
        let automata: &mut dyn Tokenable = &mut automata;
        assert!(tokenize(automata, s) == Some(Token::Num(dec(false, 4269, 4))));
    }
}

#[test]
fn test_fun() {
    {
        let s = "min";
        let mut automata = TAFun::new();
        let automata: &mut dyn Tokenable = &mut automata;
        assert!(tokenize(automata, s) == Some(Token::Fun(String::from(s))));
    }
    {
        let s = "max";
        let mut automata = TAFun::new();
        let automata: &mut dyn Tokenable = &mut automata;
        assert!(tokenize(automata, s) == Some(Token::Fun(String::from(s))));
    }
    {
        let s = "st";
        let mut automata = TAFun::new();
        let automata: &mut dyn Tokenable = &mut automata;
        assert!(tokenize(automata, s) == Some(Token::Fun(String::from(s))));
    }
    {
        let s = "s";
        let mut automata = TAFun::new();
        let automata: &mut dyn Tokenable = &mut automata;
        assert!(tokenize(automata, s).is_none());
    }
    {
        let s = "mis";
        let mut automata = TAFun::new();
        let automata: &mut dyn Tokenable = &mut automata;
        assert!(tokenize(automata, s).is_none());
    }
    {
        let s = "stmin";
        let mut automata = TAFun::new();
        let automata: &mut dyn Tokenable = &mut automata;
        assert!(tokenize(automata, s).is_none());
    }
}

#[test]
fn test_reset_yields_no_token() {
    // A freshly reset recognizer fed no input yields no token, even after a
    // successful run.
    let mut num = TANum::new();
    assert!(tokenize(&mut num, "42") == Some(Token::Num(dec(false, 42, 0))));
    num.reset();
    assert!(num.tokenize().is_none());

    let mut var = TAVariable::new();
    assert!(tokenize(&mut var, "-2x").is_some());
    var.reset();
    assert!(var.tokenize().is_none());

    let mut cmp = TACmp::new();
    assert!(tokenize(&mut cmp, "<=").is_some());
    cmp.reset();
    assert!(cmp.tokenize().is_none());

    let mut op = TAArithOp::new();
    assert!(tokenize(&mut op, "+").is_some());
    op.reset();
    assert!(op.tokenize().is_none());

    let mut fun = TAFun::new();
    assert!(tokenize(&mut fun, "max").is_some());
    fun.reset();
    assert!(fun.tokenize().is_none());

    let mut lp = TALParan::new();
    assert!(tokenize(&mut lp, "(").is_some());
    lp.reset();
    assert!(lp.tokenize().is_none());

    let mut rp = TARParan::new();
    assert!(tokenize(&mut rp, ")").is_some());
    rp.reset();
    assert!(rp.tokenize().is_none());
}

#[test]
fn test_decimal_canonical() {
    // Trailing fractional zeros are stripped; zero has a positive sign.
    assert!(Decimal::from_parts(false, 1200, 2) == dec(false, 12, 0));
    assert!(Decimal::from_parts(true, 10, 1) == dec(true, 1, 0));
    assert!(Decimal::from_parts(true, 0, 3) == dec(false, 0, 0));
    assert!(Decimal::from_parts(false, 1205, 2) == dec(false, 1205, 2));
    assert!(dec(true, 121, 2).negated() == dec(false, 121, 2));
    assert!(dec(false, 0, 0).negated() == dec(false, 0, 0));
}

#[allow(non_snake_case)]
#[test]
fn test_F64_eq() {
    assert!(dec(true, 12089999, 7).approx_eq(dec(true, 1209, 3)));
    assert!(dec(true, 12090001, 7).approx_eq(dec(true, 1209, 3)));
}

#[test]
fn test_tolerance_huge_mantissas() {
    // Mantissas up to the full 64-bit range compare exactly.
    let big = dec(false, u64::MAX, 0);
    assert!(big.approx_eq(big));
    assert!(!big.approx_eq(dec(true, u64::MAX, 0)));
    assert!(!big.approx_eq(dec(false, u64::MAX - 1, 0)));
    assert!(dec(false, u64::MAX, 19).approx_eq(dec(false, u64::MAX, 19)));
}

#[test]
fn test_tolerance_boundary() {
    // Exactly 1e-6 apart is not within the strict tolerance.
    assert!(!dec(false, 1, 6).approx_eq(dec(false, 0, 0)));
    // Just inside the tolerance.
    assert!(dec(false, 9, 7).approx_eq(dec(false, 0, 0)));
    // Far apart.
    assert!(!dec(false, 2, 0).approx_eq(dec(false, 1, 0)));
    // Equal values written with different scales.
    assert!(dec(false, 25, 1).approx_eq(dec(false, 25, 1)));
}

#[test]
fn test_fun_dead_after_complete_keyword() {
    // A character after a complete keyword kills the recognizer: it is not
    // a valid prefix of max, min or st.
    let mut automata = TAFun::new();
    assert!(tokenize(&mut automata, "maxx").is_none());
    automata.reset();
    assert!(tokenize(&mut automata, "minn").is_none());
    automata.reset();
    assert!(tokenize(&mut automata, "stt").is_none());
    automata.reset();
    assert!(tokenize(&mut automata, "maxi").is_none());
}
