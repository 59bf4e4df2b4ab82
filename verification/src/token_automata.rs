//! The seven single-token recognizers.
//!
//! Each recognizer consumes one character at a time and reports whether it is
//! still alive (`Match`), alive with a complete token so far (`Final`), or
//! unable to match (`NoMatch`). Every recognizer's behaviour is specified by
//! a pure transition function (`spec_consume`) over its own state, so the
//! tokenizer's backtracking can be reasoned about step by step.
//!
//! Only ASCII letters, digits and underscores form names and numbers; the
//! input language is ASCII.

use vstd::prelude::*;

use crate::tokens::{
    opt_token_view, spec_canon, ArithOperation, CmpOperation, Decimal, LexState, Token, TokenV,
};

verus! {

/// The capability every recognizer offers: consume one character, reset to
/// the initial state, and extract the token recognized so far, if any.
pub trait Tokenable {
    /// Feed one character; report the new classification.
    fn consume_char(&mut self, c: char) -> LexState;

    /// Return to the initial state.
    fn reset(&mut self);

    /// The token recognized so far, if the recognizer is alive in a final state.
    fn tokenize(&self) -> Option<Token>;
}

/// Whether `c` is an ASCII decimal digit.
pub open spec fn spec_is_digit(c: char) -> bool {
    48 <= c as u32 && c as u32 <= 57
}

/// Whether `c` is an ASCII letter.
pub open spec fn spec_is_letter(c: char) -> bool {
    (65 <= c as u32 && c as u32 <= 90) || (97 <= c as u32 && c as u32 <= 122)
}

/// The numeric value of an ASCII digit.
pub open spec fn spec_digit_val(c: char) -> u64 {
    (c as u32 - 48) as u64
}

fn is_digit(c: char) -> (r: bool)
    ensures
        r == spec_is_digit(c),
{
    let v = c as u32;
    48 <= v && v <= 57
}

fn is_letter(c: char) -> (r: bool)
    ensures
        r == spec_is_letter(c),
{
    let v = c as u32;
    (65 <= v && v <= 90) || (97 <= v && v <= 122)
}

fn digit_val(c: char) -> (r: u64)
    requires
        spec_is_digit(c),
    ensures
        r == spec_digit_val(c),
        r <= 9,
{
    (c as u32 - 48) as u64
}

/// Relies on String::push: appends one character at the end of the string.
#[verifier::external_body]
pub(crate) fn push_char(s: &mut String, c: char)
    ensures
        final(s)@ == old(s)@.push(c),
{
    s.push(c);
}

// ---------------------------------------------------------------------------
// Keyword recognizer
// ---------------------------------------------------------------------------

/// The three keywords of the language.
#[derive(Debug, Clone, Copy, PartialEq, Eq, Structural)]
pub enum Keyword {
    Max,
    Min,
    St,
}

/// The characters of a keyword.
pub open spec fn kw_chars(k: Keyword) -> Seq<char> {
    match k {
        Keyword::Max => seq!['m', 'a', 'x'],
        Keyword::Min => seq!['m', 'i', 'n'],
        Keyword::St => seq!['s', 't'],
    }
}

/// Recognizer for the keywords `max`, `min` and `st`.
#[derive(Debug, Clone, Copy, PartialEq, Eq, Structural)]
pub struct TAFun {
    pub fun: Option<Keyword>,
    pub last_char: Option<char>,
    pub dead: bool,
}

impl TAFun {
    /// The initial state: nothing seen, alive.
    pub open spec fn spec_init() -> TAFun {
        TAFun { fun: None, last_char: None, dead: false }
    }

    /// One transition of the keyword automaton: dead on any character
    /// outside a valid prefix of the three keywords, a character after a
    /// complete keyword included.
    pub open spec fn spec_consume(self, c: char) -> (TAFun, LexState) {
        if self.dead {
            (self, LexState::NoMatch)
        } else if self.last_char is None && (c == 'm' || c == 's') {
            (TAFun { last_char: Some(c), ..self }, LexState::Match)
        } else if self.last_char == Some('s') && c == 't' {
            (TAFun { last_char: Some(c), fun: Some(Keyword::St), ..self }, LexState::Final)
        } else if self.last_char == Some('m') && (c == 'a' || c == 'i') {
            (TAFun { last_char: Some(c), ..self }, LexState::Match)
        } else if self.last_char == Some('a') && c == 'x' {
            (TAFun { last_char: Some(c), fun: Some(Keyword::Max), ..self }, LexState::Final)
        } else if self.last_char == Some('i') && c == 'n' {
            (TAFun { last_char: Some(c), fun: Some(Keyword::Min), ..self }, LexState::Final)
        } else {
            (TAFun { dead: true, ..self }, LexState::NoMatch)
        }
    }

    /// The token this state yields, if any.
    pub open spec fn spec_tokenize(self) -> Option<TokenV> {
        if self.dead {
            None
        } else {
            match self.fun {
                Some(k) => Some(TokenV::Fun(kw_chars(k))),
                None => None,
            }
        }
    }

    pub fn new() -> (r: Self)
        ensures
            r == Self::spec_init(),
    {
        TAFun { fun: None, last_char: None, dead: false }
    }
}

impl Tokenable for TAFun {
    fn consume_char(&mut self, c: char) -> LexState {
        self.advance(c)
    }

    fn reset(&mut self) {
        self.restart()
    }

    fn tokenize(&self) -> Option<Token> {
        self.extract()
    }
}

impl TAFun {
    /// Consume one character, exactly as [`TAFun::spec_consume`] says.
    pub fn advance(&mut self, c: char) -> (r: LexState)
        ensures
            (*final(self), r) == old(self).spec_consume(c),
    {
        if self.dead {
            return LexState::NoMatch;
        }
        let last = self.last_char;
        if last.is_none() && (c == 'm' || c == 's') {
            self.last_char = Some(c);
            return LexState::Match;
        }
        if last == Some('s') && c == 't' {
            self.last_char = Some(c);
            self.fun = Some(Keyword::St);
            return LexState::Final;
        }
        if last == Some('m') && (c == 'a' || c == 'i') {
            self.last_char = Some(c);
            return LexState::Match;
        }
        if last == Some('a') && c == 'x' {
            self.last_char = Some(c);
            self.fun = Some(Keyword::Max);
            return LexState::Final;
        }
        if last == Some('i') && c == 'n' {
            self.last_char = Some(c);
            self.fun = Some(Keyword::Min);
            return LexState::Final;
        }
        self.dead = true;
        LexState::NoMatch
    }

    /// Return to the initial state; a fresh recognizer yields no token.
    pub fn restart(&mut self)
        ensures
            *final(self) == Self::spec_init(),
            final(self).spec_tokenize() is None,
    {
        self.fun = None;
        self.dead = false;
        self.last_char = None;
    }

    /// Extract the keyword token, exactly as [`TAFun::spec_tokenize`] says.
    pub fn extract(&self) -> (r: Option<Token>)
        ensures
            opt_token_view(r) == self.spec_tokenize(),
    {
        if self.dead {
            return None;
        }
        match self.fun {
            Some(Keyword::Max) => {
                let s = String::from_str("max");
                proof {
                    reveal_strlit("max");
                    assert(s@ =~= kw_chars(Keyword::Max));
                }
                Some(Token::Fun(s))
            },
            Some(Keyword::Min) => {
                let s = String::from_str("min");
                proof {
                    reveal_strlit("min");
                    assert(s@ =~= kw_chars(Keyword::Min));
                }
                Some(Token::Fun(s))
            },
            Some(Keyword::St) => {
                let s = String::from_str("st");
                proof {
                    reveal_strlit("st");
                    assert(s@ =~= kw_chars(Keyword::St));
                }
                Some(Token::Fun(s))
            },
            None => None,
        }
    }
}

// ---------------------------------------------------------------------------
// Comparator recognizer
// ---------------------------------------------------------------------------

/// Recognizer for `=`, `<`, `>`, `<=`, `>=`; a second `=` after `=` kills it.
#[derive(Debug, Clone, Copy, PartialEq, Eq, Structural)]
pub struct TACmp {
    pub cmp: Option<CmpOperation>,
    pub dead: bool,
}

impl TACmp {
    /// The initial state: nothing seen, alive.
    pub open spec fn spec_init() -> TACmp {
        TACmp { cmp: None, dead: false }
    }

    /// One transition of the comparator automaton.
    pub open spec fn spec_consume(self, c: char) -> (TACmp, LexState) {
        if self.dead {
            (self, LexState::NoMatch)
        } else if c == '=' {
            match self.cmp {
                Some(CmpOperation::Lt) => (
                    TACmp { cmp: Some(CmpOperation::Leq), ..self },
                    LexState::Final,
                ),
                Some(CmpOperation::Gt) => (
                    TACmp { cmp: Some(CmpOperation::Geq), ..self },
                    LexState::Final,
                ),
                Some(_) => (TACmp { dead: true, ..self }, LexState::NoMatch),
                None => (TACmp { cmp: Some(CmpOperation::Eq), ..self }, LexState::Final),
            }
        } else if c == '<' {
            (TACmp { cmp: Some(CmpOperation::Lt), ..self }, LexState::Final)
        } else if c == '>' {
            (TACmp { cmp: Some(CmpOperation::Gt), ..self }, LexState::Final)
        } else {
            (TACmp { dead: true, ..self }, LexState::NoMatch)
        }
    }

    /// The token this state yields, if any.
    pub open spec fn spec_tokenize(self) -> Option<TokenV> {
        if self.dead {
            None
        } else {
            match self.cmp {
                Some(op) => Some(TokenV::Cmp(op)),
                None => None,
            }
        }
    }

    pub fn new() -> (r: Self)
        ensures
            r == Self::spec_init(),
    {
        TACmp { cmp: None, dead: false }
    }
}

impl Tokenable for TACmp {
    fn consume_char(&mut self, c: char) -> LexState {
        self.advance(c)
    }

    fn reset(&mut self) {
        self.restart()
    }

    fn tokenize(&self) -> Option<Token> {
        self.extract()
    }
}

impl TACmp {
    /// Consume one character, exactly as [`TACmp::spec_consume`] says.
    pub fn advance(&mut self, c: char) -> (r: LexState)
        ensures
            (*final(self), r) == old(self).spec_consume(c),
    {
        if self.dead {
            return LexState::NoMatch;
        }
        if c == '=' {
            match self.cmp {
                Some(CmpOperation::Lt) => {
                    self.cmp = Some(CmpOperation::Leq);
                    LexState::Final
                },
                Some(CmpOperation::Gt) => {
                    self.cmp = Some(CmpOperation::Geq);
                    LexState::Final
                },
                Some(_) => {
                    self.dead = true;
                    LexState::NoMatch
                },
                None => {
                    self.cmp = Some(CmpOperation::Eq);
                    LexState::Final
                },
            }
        } else if c == '<' {
            self.cmp = Some(CmpOperation::Lt);
            LexState::Final
        } else if c == '>' {
            self.cmp = Some(CmpOperation::Gt);
            LexState::Final
        } else {
            self.dead = true;
            LexState::NoMatch
        }
    }

    /// Return to the initial state; a fresh recognizer yields no token.
    pub fn restart(&mut self)
        ensures
            *final(self) == Self::spec_init(),
            final(self).spec_tokenize() is None,
    {
        self.dead = false;
        self.cmp = None;
    }

    /// Extract the comparator token, exactly as [`TACmp::spec_tokenize`] says.
    pub fn extract(&self) -> (r: Option<Token>)
        ensures
            opt_token_view(r) == self.spec_tokenize(),
    {
        if self.dead {
            return None;
        }
        match self.cmp {
            Some(op) => Some(Token::Cmp(op)),
            None => None,
        }
    }
}

// ---------------------------------------------------------------------------
// Number recognizer
// ---------------------------------------------------------------------------

/// Recognizer for decimal literals: digits, one optional leading `-`, one
/// optional `.`. The mantissa is accumulated exactly; a literal whose digits
/// would overflow the 64-bit mantissa kills the recognizer instead of
/// rounding.
#[derive(Debug, Clone, Copy, PartialEq, Eq, Structural)]
pub struct TANum {
    pub num: Option<u64>,
    pub int_part: bool,
    pub pow_dec: u32,
    pub neg: bool,
    pub dead: bool,
}

impl TANum {
    /// The initial state: nothing seen, integer phase, positive.
    pub open spec fn spec_init() -> TANum {
        TANum { num: None, int_part: true, pow_dec: 1, neg: false, dead: false }
    }

    /// States reachable from the initial one keep these bounds.
    pub open spec fn inv(self) -> bool {
        &&& self.pow_dec >= 1
        &&& !self.int_part ==> self.num is Some
    }

    /// One transition of the number automaton.
    pub open spec fn spec_consume(self, c: char) -> (TANum, LexState) {
        if self.dead {
            (self, LexState::NoMatch)
        } else if spec_is_digit(c) {
            let base = match self.num {
                None => 0u64,
                Some(n) => n,
            };
            if base <= (u64::MAX - 9) / 10 && (self.int_part || self.pow_dec < u32::MAX) {
                if self.int_part {
                    (
                        TANum { num: Some((base * 10 + spec_digit_val(c)) as u64), ..self },
                        LexState::Final,
                    )
                } else {
                    (
                        TANum {
                            num: Some((base * 10 + spec_digit_val(c)) as u64),
                            pow_dec: (self.pow_dec + 1) as u32,
                            ..self
                        },
                        LexState::Final,
                    )
                }
            } else {
                (TANum { dead: true, ..self }, LexState::NoMatch)
            }
        } else if c == '.' {
            if self.int_part && self.num is Some {
                (TANum { int_part: false, ..self }, LexState::Final)
            } else {
                (TANum { dead: true, ..self }, LexState::NoMatch)
            }
        } else if c == '-' {
            if self.num is None && !self.neg {
                (TANum { neg: true, ..self }, LexState::Match)
            } else {
                (TANum { dead: true, ..self }, LexState::NoMatch)
            }
        } else {
            (TANum { dead: true, ..self }, LexState::NoMatch)
        }
    }

    /// The token this state yields: the accumulated digits as a canonical
    /// decimal with `pow_dec - 1` fractional digits.
    pub open spec fn spec_tokenize(self) -> Option<TokenV> {
        if self.dead {
            None
        } else {
            match self.num {
                Some(m) => Some(TokenV::Num(spec_canon(self.neg, m, (self.pow_dec - 1) as u32))),
                None => None,
            }
        }
    }

    pub fn new() -> (r: Self)
        ensures
            r == Self::spec_init(),
            r.inv(),
    {
        TANum { num: None, int_part: true, pow_dec: 1, neg: false, dead: false }
    }
}

impl Tokenable for TANum {
    fn consume_char(&mut self, c: char) -> LexState {
        self.advance(c)
    }

    fn reset(&mut self) {
        self.restart()
    }

    fn tokenize(&self) -> Option<Token> {
        if self.pow_dec < 1 {
            return None;
        }
        self.extract()
    }
}

impl TANum {
    /// Consume one character, exactly as [`TANum::spec_consume`] says.
    pub fn advance(&mut self, c: char) -> (r: LexState)
        ensures
            (*final(self), r) == old(self).spec_consume(c),
            old(self).inv() ==> final(self).inv(),
    {
        if self.dead {
            return LexState::NoMatch;
        }
        if is_digit(c) {
            let base = match self.num {
                None => 0u64,
                Some(n) => n,
            };
            if base <= (u64::MAX - 9) / 10 && (self.int_part || self.pow_dec < u32::MAX) {
                self.num = Some(base * 10 + digit_val(c));
                if !self.int_part {
                    self.pow_dec = self.pow_dec + 1;
                }
                LexState::Final
            } else {
                self.dead = true;
                LexState::NoMatch
            }
        } else if c == '.' {
            if self.int_part && self.num.is_some() {
                self.int_part = false;
                LexState::Final
            } else {
                self.dead = true;
                LexState::NoMatch
            }
        } else if c == '-' {
            if self.num.is_none() && !self.neg {
                self.neg = true;
                LexState::Match
            } else {
                self.dead = true;
                LexState::NoMatch
            }
        } else {
            self.dead = true;
            LexState::NoMatch
        }
    }

    /// Return to the initial state; a fresh recognizer yields no token.
    pub fn restart(&mut self)
        ensures
            *final(self) == Self::spec_init(),
            final(self).inv(),
            final(self).spec_tokenize() is None,
    {
        self.dead = false;
        self.neg = false;
        self.pow_dec = 1;
        self.num = None;
        self.int_part = true;
    }

    /// Extract the number token, exactly as [`TANum::spec_tokenize`] says.
    pub fn extract(&self) -> (r: Option<Token>)
        requires
            self.pow_dec >= 1,
        ensures
            opt_token_view(r) == self.spec_tokenize(),
    {
        if self.dead {
            return None;
        }
        match self.num {
            Some(m) => Some(Token::Num(Decimal::from_parts(self.neg, m, self.pow_dec - 1))),
            None => None,
        }
    }
}

// ---------------------------------------------------------------------------
// Variable recognizer
// ---------------------------------------------------------------------------

/// Recognizer for a variable name with an optional fused leading signed
/// numeric coefficient, such as `-1.21x1`.
#[derive(Debug)]
pub struct TAVariable {
    pub coef: Option<TANum>,
    pub sign: Option<i8>,
    pub name: Option<String>,
    pub dead: bool,
}

/// The mathematical state of the variable recognizer.
pub struct TAVariableV {
    pub coef: Option<TANum>,
    pub sign: Option<i8>,
    pub name: Option<Seq<char>>,
    pub dead: bool,
}

impl View for TAVariable {
    type V = TAVariableV;

    open spec fn view(&self) -> TAVariableV {
        TAVariableV {
            coef: self.coef,
            sign: self.sign,
            name: match self.name {
                Some(ref s) => Some(s@),
                None => None,
            },
            dead: self.dead,
        }
    }
}

impl TAVariableV {
    /// The initial state: nothing seen, alive.
    pub open spec fn spec_init() -> TAVariableV {
        TAVariableV { coef: None, sign: None, name: None, dead: false }
    }

    /// The embedded coefficient automaton, if any, keeps its bounds.
    pub open spec fn inv(self) -> bool {
        match self.coef {
            Some(n) => n.inv(),
            None => true,
        }
    }

    /// One transition of the variable automaton.
    pub open spec fn spec_consume(self, c: char) -> (TAVariableV, LexState) {
        if self.dead {
            (self, LexState::NoMatch)
        } else if spec_is_letter(c) || c == '_' {
            let base = match self.name {
                None => Seq::<char>::empty(),
                Some(s) => s,
            };
            (TAVariableV { name: Some(base.push(c)), ..self }, LexState::Final)
        } else {
            let v = if c == '-' {
                TAVariableV { sign: Some(-1i8), ..self }
            } else {
                self
            };
            if (spec_is_digit(c) || c == '.' || c == '-') && v.name is None {
                let coef0 = match v.coef {
                    None => TANum::spec_init(),
                    Some(n) => n,
                };
                let step = coef0.spec_consume(c);
                let v2 = TAVariableV { coef: Some(step.0), ..v };
                match step.1 {
                    LexState::NoMatch => (v2, LexState::NoMatch),
                    _ => (v2, LexState::Match),
                }
            } else if spec_is_digit(c) && v.name is Some {
                (
                    TAVariableV { name: Some(v.name->Some_0.push(c)), ..v },
                    LexState::Final,
                )
            } else {
                (v, LexState::NoMatch)
            }
        }
    }

    /// The token this state yields: the name with its fused coefficient
    /// (default `1`, or `-1` after a bare leading minus).
    pub open spec fn spec_tokenize(self) -> Option<TokenV> {
        if self.dead {
            None
        } else {
            match self.name {
                Some(n) => {
                    match self.coef {
                        Some(num) => {
                            let coef = match num.spec_tokenize() {
                                Some(TokenV::Num(d)) => d,
                                _ => Decimal { neg: self.sign == Some(-1i8), mant: 1, scale: 0 },
                            };
                            Some(TokenV::Variable(n, coef))
                        },
                        None => Some(TokenV::Variable(n, Decimal { neg: false, mant: 1, scale: 0 })),
                    }
                },
                None => None,
            }
        }
    }
}

impl TAVariable {
    pub fn new() -> (r: Self)
        ensures
            r@ == TAVariableV::spec_init(),
            r@.inv(),
    {
        TAVariable { coef: None, sign: None, name: None, dead: false }
    }
}

impl Tokenable for TAVariable {
    fn consume_char(&mut self, c: char) -> LexState {
        self.advance(c)
    }

    fn reset(&mut self) {
        self.restart()
    }

    fn tokenize(&self) -> Option<Token> {
        match self.coef {
            Some(n) if n.pow_dec < 1 => None,
            _ => self.extract(),
        }
    }
}

impl TAVariable {
    /// Consume one character, exactly as [`TAVariableV::spec_consume`] says.
    pub fn advance(&mut self, c: char) -> (r: LexState)
        ensures
            (final(self)@, r) == old(self)@.spec_consume(c),
            old(self)@.inv() ==> final(self)@.inv(),
    {
        if self.dead {
            return LexState::NoMatch;
        }
        if is_letter(c) || c == '_' {
            if self.name.is_none() {
                self.name = Some(String::new());
            }
            let name = self.name.as_mut().unwrap();
            push_char(name, c);
            return LexState::Final;
        }
        if c == '-' {
            self.sign = Some(-1);
        }
        if (is_digit(c) || c == '.' || c == '-') && self.name.is_none() {
            if self.coef.is_none() {
                self.coef = Some(TANum::new());
            }
            let coef = self.coef.as_mut().unwrap();
            match coef.advance(c) {
                LexState::NoMatch => return LexState::NoMatch,
                _ => return LexState::Match,
            }
        }
        if is_digit(c) && self.name.is_some() {
            let name = self.name.as_mut().unwrap();
            push_char(name, c);
            return LexState::Final;
        }
        LexState::NoMatch
    }

    /// Return to the initial state; a fresh recognizer yields no token.
    pub fn restart(&mut self)
        ensures
            final(self)@ == TAVariableV::spec_init(),
            final(self)@.inv(),
            final(self)@.spec_tokenize() is None,
    {
        self.dead = false;
        self.name = None;
        self.coef = None;
        self.sign = None;
    }

    /// Extract the variable token, exactly as [`TAVariableV::spec_tokenize`] says.
    pub fn extract(&self) -> (r: Option<Token>)
        requires
            match self@.coef {
                Some(n) => n.pow_dec >= 1,
                None => true,
            },
        ensures
            opt_token_view(r) == self@.spec_tokenize(),
    {
        if self.dead {
            return None;
        }
        match self.name {
            Some(ref n) => {
                let name = n.clone();
                match self.coef {
                    Some(num) => {
                        let coef = match num.extract() {
                            Some(Token::Num(d)) => d,
                            _ => {
                                let neg = match self.sign {
                                    Some(s) => s == -1,
                                    None => false,
                                };
                                Decimal { neg, mant: 1, scale: 0 }
                            },
                        };
                        Some(Token::Variable(name, coef))
                    },
                    None => Some(Token::Variable(name, Decimal { neg: false, mant: 1, scale: 0 })),
                }
            },
            None => None,
        }
    }
}

// ---------------------------------------------------------------------------
// Arithmetic-operator recognizer
// ---------------------------------------------------------------------------

/// Recognizer for the single-character operators `+ - * /`.
#[derive(Debug, Clone, Copy, PartialEq, Eq, Structural)]
pub struct TAArithOp {
    pub op: Option<ArithOperation>,
    pub dead: bool,
}

impl TAArithOp {
    /// The initial state: nothing seen, alive.
    pub open spec fn spec_init() -> TAArithOp {
        TAArithOp { op: None, dead: false }
    }

    /// One transition: an operator is final at once and dead thereafter.
    pub open spec fn spec_consume(self, c: char) -> (TAArithOp, LexState) {
        if self.dead || self.op is Some {
            (TAArithOp { dead: true, ..self }, LexState::NoMatch)
        } else if c == '+' {
            (TAArithOp { op: Some(ArithOperation::Add), ..self }, LexState::Final)
        } else if c == '/' {
            (TAArithOp { op: Some(ArithOperation::Div), ..self }, LexState::Final)
        } else if c == '*' {
            (TAArithOp { op: Some(ArithOperation::Mul), ..self }, LexState::Final)
        } else if c == '-' {
            (TAArithOp { op: Some(ArithOperation::Sub), ..self }, LexState::Final)
        } else {
            (TAArithOp { dead: true, op: None, ..self }, LexState::NoMatch)
        }
    }

    /// The token this state yields, if any.
    pub open spec fn spec_tokenize(self) -> Option<TokenV> {
        if self.dead {
            None
        } else {
            match self.op {
                Some(op) => Some(TokenV::ArithOp(op)),
                None => None,
            }
        }
    }

    pub fn new() -> (r: Self)
        ensures
            r == Self::spec_init(),
    {
        TAArithOp { op: None, dead: false }
    }
}

impl Tokenable for TAArithOp {
    fn consume_char(&mut self, c: char) -> LexState {
        self.advance(c)
    }

    fn reset(&mut self) {
        self.restart()
    }

    fn tokenize(&self) -> Option<Token> {
        self.extract()
    }
}

impl TAArithOp {
    /// Consume one character, exactly as [`TAArithOp::spec_consume`] says.
    pub fn advance(&mut self, c: char) -> (r: LexState)
        ensures
            (*final(self), r) == old(self).spec_consume(c),
    {
        if self.dead || self.op.is_some() {
            self.dead = true;
            return LexState::NoMatch;
        }
        if c == '+' {
            self.op = Some(ArithOperation::Add);
            LexState::Final
        } else if c == '/' {
            self.op = Some(ArithOperation::Div);
            LexState::Final
        } else if c == '*' {
            self.op = Some(ArithOperation::Mul);
            LexState::Final
        } else if c == '-' {
            self.op = Some(ArithOperation::Sub);
            LexState::Final
        } else {
            self.dead = true;
            self.op = None;
            LexState::NoMatch
        }
    }

    /// Return to the initial state; a fresh recognizer yields no token.
    pub fn restart(&mut self)
        ensures
            *final(self) == Self::spec_init(),
            final(self).spec_tokenize() is None,
    {
        self.dead = false;
        self.op = None;
    }

    /// Extract the operator token, exactly as [`TAArithOp::spec_tokenize`] says.
    pub fn extract(&self) -> (r: Option<Token>)
        ensures
            opt_token_view(r) == self.spec_tokenize(),
    {
        if self.dead {
            return None;
        }
        match self.op {
            Some(op) => Some(Token::ArithOp(op)),
            None => None,
        }
    }
}

// ---------------------------------------------------------------------------
// Bracket recognizers
// ---------------------------------------------------------------------------

/// Recognizer for one opening bracket: `(`, `[` or `{`.
#[derive(Debug, Clone, Copy, PartialEq, Eq, Structural)]
pub struct TALParan {
    pub p: Option<char>,
    pub dead: bool,
}

impl TALParan {
    /// The initial state: nothing seen, alive.
    pub open spec fn spec_init() -> TALParan {
        TALParan { p: None, dead: false }
    }

    /// One transition: a bracket is final at once and dead thereafter.
    pub open spec fn spec_consume(self, c: char) -> (TALParan, LexState) {
        if self.dead || self.p is Some {
            (TALParan { dead: true, ..self }, LexState::NoMatch)
        } else if c == '(' || c == '[' || c == '{' {
            (TALParan { p: Some(c), ..self }, LexState::Final)
        } else {
            (TALParan { dead: true, ..self }, LexState::NoMatch)
        }
    }

    /// The token this state yields, if any.
    pub open spec fn spec_tokenize(self) -> Option<TokenV> {
        if self.dead {
            None
        } else {
            match self.p {
                Some(c) => Some(TokenV::LParen(c)),
                None => None,
            }
        }
    }

    pub fn new() -> (r: Self)
        ensures
            r == Self::spec_init(),
    {
        TALParan { p: None, dead: false }
    }
}

impl Tokenable for TALParan {
    fn consume_char(&mut self, c: char) -> LexState {
        self.advance(c)
    }

    fn reset(&mut self) {
        self.restart()
    }

    fn tokenize(&self) -> Option<Token> {
        self.extract()
    }
}

impl TALParan {
    /// Consume one character, exactly as [`TALParan::spec_consume`] says.
    pub fn advance(&mut self, c: char) -> (r: LexState)
        ensures
            (*final(self), r) == old(self).spec_consume(c),
    {
        if self.dead || self.p.is_some() {
            self.dead = true;
            return LexState::NoMatch;
        }
        if c == '(' || c == '[' || c == '{' {
            self.p = Some(c);
            LexState::Final
        } else {
            self.dead = true;
            LexState::NoMatch
        }
    }

    /// Return to the initial state; a fresh recognizer yields no token.
    pub fn restart(&mut self)
        ensures
            *final(self) == Self::spec_init(),
            final(self).spec_tokenize() is None,
    {
        self.dead = false;
        self.p = None;
    }

    /// Extract the bracket token, exactly as [`TALParan::spec_tokenize`] says.
    pub fn extract(&self) -> (r: Option<Token>)
        ensures
            opt_token_view(r) == self.spec_tokenize(),
    {
        if self.dead {
            return None;
        }
        match self.p {
            Some(c) => Some(Token::LParen(c)),
            None => None,
        }
    }
}

/// Recognizer for one closing bracket: `)`, `]` or `}`.
#[derive(Debug, Clone, Copy, PartialEq, Eq, Structural)]
pub struct TARParan {
    pub p: Option<char>,
    pub dead: bool,
}

impl TARParan {
    /// The initial state: nothing seen, alive.
    pub open spec fn spec_init() -> TARParan {
        TARParan { p: None, dead: false }
    }

    /// One transition: a bracket is final at once and dead thereafter.
    pub open spec fn spec_consume(self, c: char) -> (TARParan, LexState) {
        if self.dead || self.p is Some {
            (TARParan { dead: true, ..self }, LexState::NoMatch)
        } else if c == ')' || c == ']' || c == '}' {
            (TARParan { p: Some(c), ..self }, LexState::Final)
        } else {
            (TARParan { dead: true, ..self }, LexState::NoMatch)
        }
    }

    /// The token this state yields, if any.
    pub open spec fn spec_tokenize(self) -> Option<TokenV> {
        if self.dead {
            None
        } else {
            match self.p {
                Some(c) => Some(TokenV::RParen(c)),
                None => None,
            }
        }
    }

    pub fn new() -> (r: Self)
        ensures
            r == Self::spec_init(),
    {
        TARParan { p: None, dead: false }
    }
}

impl Tokenable for TARParan {
    fn consume_char(&mut self, c: char) -> LexState {
        self.advance(c)
    }

    fn reset(&mut self) {
        self.restart()
    }

    fn tokenize(&self) -> Option<Token> {
        self.extract()
    }
}

impl TARParan {
    /// Consume one character, exactly as [`TARParan::spec_consume`] says.
    pub fn advance(&mut self, c: char) -> (r: LexState)
        ensures
            (*final(self), r) == old(self).spec_consume(c),
    {
        if self.dead || self.p.is_some() {
            self.dead = true;
            return LexState::NoMatch;
        }
        if c == ')' || c == ']' || c == '}' {
            self.p = Some(c);
            LexState::Final
        } else {
            self.dead = true;
            LexState::NoMatch
        }
    }

    /// Return to the initial state; a fresh recognizer yields no token.
    pub fn restart(&mut self)
        ensures
            *final(self) == Self::spec_init(),
            final(self).spec_tokenize() is None,
    {
        self.dead = false;
        self.p = None;
    }

    /// Extract the bracket token, exactly as [`TARParan::spec_tokenize`] says.
    pub fn extract(&self) -> (r: Option<Token>)
        ensures
            opt_token_view(r) == self.spec_tokenize(),
    {
        if self.dead {
            return None;
        }
        match self.p {
            Some(c) => Some(Token::RParen(c)),
            None => None,
        }
    }
}

} // verus!
