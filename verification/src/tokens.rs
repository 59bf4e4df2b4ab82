//! Token values produced by the lexer.
//!
//! Numeric literals are held exactly: a [`Decimal`] is a sign, an integer
//! mantissa and a power-of-ten scale, so `-1.21` is `(neg, 121, 2)`. The
//! lexer only ever accumulates decimal digits and flips signs, so this
//! representation loses nothing.

use vstd::prelude::*;

verus! {

/// The four arithmetic operator tokens: `+ - * /`.
#[derive(Debug, Clone, Copy, PartialEq, Eq, Structural)]
pub enum ArithOperation {
    Add,
    Sub,
    Mul,
    Div,
}

/// The comparator tokens: `= < > <= >=`.
#[derive(Debug, Clone, Copy, PartialEq, Eq, Structural)]
pub enum CmpOperation {
    Eq,
    Lt,
    Gt,
    Leq,
    Geq,
}

/// Classification a recognizer reports after consuming one character.
///
/// `Match` is alive but not yet a complete token; `Final` is alive and a
/// complete token so far; `NoMatch` means the recognizer cannot match.
#[derive(Debug, Clone, Copy, PartialEq, Eq, Structural)]
pub enum LexState {
    Match,
    NoMatch,
    Final,
}

/// An exact decimal number: `(-1)^neg * mant / 10^scale`.
///
/// Values built by [`Decimal::from_parts`] are canonical: a zero mantissa
/// forces a positive sign and scale zero, and a positive scale never ends in
/// a trailing zero digit. Two canonical decimals denote the same number
/// exactly when they are structurally equal.
#[derive(Debug, Clone, Copy, PartialEq, Eq, Structural)]
pub struct Decimal {
    pub neg: bool,
    pub mant: u64,
    pub scale: u32,
}

/// The canonical form of a decimal with the given sign, mantissa and scale:
/// trailing fractional zeros are stripped and zero is always `+0 / 10^0`.
pub open spec fn spec_canon(neg: bool, mant: u64, scale: u32) -> Decimal
    decreases scale,
{
    if scale > 0 && mant % 10 == 0 {
        spec_canon(neg, mant / 10, (scale - 1) as u32)
    } else if mant == 0 {
        Decimal { neg: false, mant: 0, scale: 0 }
    } else {
        Decimal { neg, mant, scale }
    }
}

impl Decimal {
    /// Whether this value is in the canonical form produced by `from_parts`.
    pub open spec fn canonical(self) -> bool {
        &&& self.mant == 0 ==> (!self.neg && self.scale == 0)
        &&& self.scale > 0 ==> self.mant % 10 != 0
    }

    /// The signed integer numerator of the represented rational.
    pub open spec fn numerator(self) -> int {
        if self.neg {
            -(self.mant as int)
        } else {
            self.mant as int
        }
    }

    /// Build the canonical decimal for `(-1)^neg * mant / 10^scale`.
    pub fn from_parts(neg: bool, mant: u64, scale: u32) -> (r: Decimal)
        ensures
            r == spec_canon(neg, mant, scale),
            r.canonical(),
    {
        let mut m: u64 = mant;
        let mut s: u32 = scale;
        while s > 0 && m % 10 == 0
            invariant
                spec_canon(neg, m, s) == spec_canon(neg, mant, scale),
            decreases s,
        {
            m = m / 10;
            s = s - 1;
        }
        if m == 0 {
            Decimal { neg: false, mant: 0, scale: 0 }
        } else {
            Decimal { neg, mant: m, scale: s }
        }
    }

    /// The decimal with the opposite sign; zero stays canonical.
    pub fn negated(self) -> (r: Decimal)
        ensures
            r == self.spec_negated(),
    {
        if self.mant == 0 {
            self
        } else {
            Decimal { neg: !self.neg, mant: self.mant, scale: self.scale }
        }
    }

    /// Specification of [`Decimal::negated`].
    pub open spec fn spec_negated(self) -> Decimal {
        if self.mant == 0 {
            self
        } else {
            Decimal { neg: !self.neg, mant: self.mant, scale: self.scale }
        }
    }
}

/// Compare two decimals field by field.
pub fn decimal_eq(a: Decimal, b: Decimal) -> (r: bool)
    ensures
        r == (a == b),
{
    a.neg == b.neg && a.mant == b.mant && a.scale == b.scale
}

/// The smallest lexical unit of the input language.
#[derive(Debug, PartialEq, Eq)]
pub enum Token {
    /// A variable name with its fused leading coefficient (default `1`).
    Variable(String, Decimal),
    /// `+`, `-`, `*` or `/`.
    ArithOp(ArithOperation),
    /// `(`, `[` or `{`.
    LParen(char),
    /// `)`, `]` or `}`.
    RParen(char),
    /// One of the keywords `max`, `min`, `st`.
    Fun(String),
    /// A numeric literal.
    Num(Decimal),
    /// `=`, `<`, `>`, `<=` or `>=`.
    Cmp(CmpOperation),
    /// An end-of-line marker.
    EOL,
}

/// The mathematical shape of a token: names as character sequences.
pub enum TokenV {
    Variable(Seq<char>, Decimal),
    ArithOp(ArithOperation),
    LParen(char),
    RParen(char),
    Fun(Seq<char>),
    Num(Decimal),
    Cmp(CmpOperation),
    EOL,
}

impl View for Token {
    type V = TokenV;

    open spec fn view(&self) -> TokenV {
        match self {
            Token::Variable(name, coef) => TokenV::Variable(name@, *coef),
            Token::ArithOp(op) => TokenV::ArithOp(*op),
            Token::LParen(c) => TokenV::LParen(*c),
            Token::RParen(c) => TokenV::RParen(*c),
            Token::Fun(s) => TokenV::Fun(s@),
            Token::Num(d) => TokenV::Num(*d),
            Token::Cmp(c) => TokenV::Cmp(*c),
            Token::EOL => TokenV::EOL,
        }
    }
}

impl Clone for Token {
    /// A clone carries the same name, payload and tag as the original.
    fn clone(&self) -> (r: Token)
        ensures
            r@ == self@,
    {
        match self {
            Token::Variable(name, coef) => Token::Variable(name.clone(), *coef),
            Token::ArithOp(op) => Token::ArithOp(*op),
            Token::LParen(c) => Token::LParen(*c),
            Token::RParen(c) => Token::RParen(*c),
            Token::Fun(s) => Token::Fun(s.clone()),
            Token::Num(d) => Token::Num(*d),
            Token::Cmp(c) => Token::Cmp(*c),
            Token::EOL => Token::EOL,
        }
    }
}

/// The view of an optional token.
pub open spec fn opt_token_view(t: Option<Token>) -> Option<TokenV> {
    match t {
        Some(x) => Some(x@),
        None => None,
    }
}

/// Compare two tokens by content (names, coefficients, operator kinds).
pub fn token_content_eq(a: &Token, b: &Token) -> (r: bool)
    ensures
        r == (a@ == b@),
{
    match (a, b) {
        (Token::Variable(n1, d1), Token::Variable(n2, d2)) => n1.eq(n2) && decimal_eq(*d1, *d2),
        (Token::ArithOp(o1), Token::ArithOp(o2)) => *o1 == *o2,
        (Token::LParen(c1), Token::LParen(c2)) => *c1 == *c2,
        (Token::RParen(c1), Token::RParen(c2)) => *c1 == *c2,
        (Token::Fun(s1), Token::Fun(s2)) => s1.eq(s2),
        (Token::Num(d1), Token::Num(d2)) => decimal_eq(*d1, *d2),
        (Token::Cmp(c1), Token::Cmp(c2)) => *c1 == *c2,
        (Token::EOL, Token::EOL) => true,
        _ => false,
    }
}

/// Whether two tokens are the same kind, whatever their payload.
pub fn token_same_kind(a: &Token, b: &Token) -> (r: bool)
    ensures
        r == token_kinds_match(a@, b@),
{
    match (a, b) {
        (Token::Variable(_, _), Token::Variable(_, _)) => true,
        (Token::ArithOp(_), Token::ArithOp(_)) => true,
        (Token::LParen(_), Token::LParen(_)) => true,
        (Token::RParen(_), Token::RParen(_)) => true,
        (Token::Fun(_), Token::Fun(_)) => true,
        (Token::Num(_), Token::Num(_)) => true,
        (Token::Cmp(_), Token::Cmp(_)) => true,
        (Token::EOL, Token::EOL) => true,
        _ => false,
    }
}

/// Whether two token views carry the same tag.
pub open spec fn token_kinds_match(a: TokenV, b: TokenV) -> bool {
    match (a, b) {
        (TokenV::Variable(_, _), TokenV::Variable(_, _)) => true,
        (TokenV::ArithOp(_), TokenV::ArithOp(_)) => true,
        (TokenV::LParen(_), TokenV::LParen(_)) => true,
        (TokenV::RParen(_), TokenV::RParen(_)) => true,
        (TokenV::Fun(_), TokenV::Fun(_)) => true,
        (TokenV::Num(_), TokenV::Num(_)) => true,
        (TokenV::Cmp(_), TokenV::Cmp(_)) => true,
        (TokenV::EOL, TokenV::EOL) => true,
        _ => false,
    }
}


/// The `n`-th power of ten.
pub open spec fn pow10(n: nat) -> nat
    decreases n,
{
    if n == 0 {
        1
    } else {
        10 * pow10((n - 1) as nat)
    }
}

/// Powers of ten are positive.
pub proof fn lemma_pow10_pos(n: nat)
    ensures
        pow10(n) >= 1,
    decreases n,
{
    if n > 0 {
        lemma_pow10_pos((n - 1) as nat);
    }
}

/// Powers of ten multiply by adding exponents.
pub proof fn lemma_pow10_add(a: nat, b: nat)
    ensures
        pow10(a + b) == pow10(a) * pow10(b),
    decreases a,
{
    if a == 0 {
        assert(pow10(a + b) == pow10(b));
        assert(1 * pow10(b) == pow10(b)) by (nonlinear_arith);
    } else {
        lemma_pow10_add((a - 1) as nat, b);
        assert((a + b - 1) as nat == (a - 1) as nat + b);
        assert(pow10(a + b) == 10 * pow10((a - 1) as nat + b));
        assert(pow10(a) == 10 * pow10((a - 1) as nat));
        assert(10 * (pow10((a - 1) as nat) * pow10(b)) == (10 * pow10((a - 1) as nat)) * pow10(b))
            by (nonlinear_arith);
        assert(pow10(a + b) == pow10(a) * pow10(b));
    }
}

/// Whether two decimals denote the same rational number:
/// `a.numerator / 10^a.scale == b.numerator / 10^b.scale`, stated by cross
/// multiplication.
pub open spec fn same_value(a: Decimal, b: Decimal) -> bool {
    a.numerator() * pow10(b.scale as nat) == b.numerator() * pow10(a.scale as nat)
}

/// Two canonical decimals denote the same number exactly when they are
/// structurally equal: the canonical form is a complete code for the value.
pub proof fn lemma_canonical_value_eq(a: Decimal, b: Decimal)
    requires
        a.canonical(),
        b.canonical(),
    ensures
        same_value(a, b) <==> a == b,
{
    lemma_pow10_pos(a.scale as nat);
    lemma_pow10_pos(b.scale as nat);
    let pa = pow10(a.scale as nat) as int;
    let pb = pow10(b.scale as nat) as int;
    if same_value(a, b) {
        if a.mant == 0 {
            assert(a.numerator() == 0);
            assert(a.numerator() * pb == 0) by (nonlinear_arith)
                requires
                    a.numerator() == 0,
            ;
            assert(b.numerator() * pa == 0);
            assert(b.numerator() == 0) by (nonlinear_arith)
                requires
                    b.numerator() * pa == 0,
                    pa >= 1,
            ;
            assert(a == b);
        } else if b.mant == 0 {
            assert(b.numerator() == 0);
            assert(b.numerator() * pa == 0) by (nonlinear_arith)
                requires
                    b.numerator() == 0,
            ;
            assert(a.numerator() * pb == 0);
            assert(a.numerator() == 0) by (nonlinear_arith)
                requires
                    a.numerator() * pb == 0,
                    pb >= 1,
            ;
            assert(false);
        } else {
            if a.neg != b.neg {
                if a.neg {
                    assert(a.numerator() * pb < 0) by (nonlinear_arith)
                        requires
                            a.numerator() < 0,
                            pb >= 1,
                    ;
                    assert(b.numerator() * pa > 0) by (nonlinear_arith)
                        requires
                            b.numerator() > 0,
                            pa >= 1,
                    ;
                } else {
                    assert(a.numerator() * pb > 0) by (nonlinear_arith)
                        requires
                            a.numerator() > 0,
                            pb >= 1,
                    ;
                    assert(b.numerator() * pa < 0) by (nonlinear_arith)
                        requires
                            b.numerator() < 0,
                            pa >= 1,
                    ;
                }
                assert(false);
            }
            let ma = a.mant as int;
            let mb = b.mant as int;
            assert(ma * pb == mb * pa) by (nonlinear_arith)
                requires
                    a.numerator() * pb == b.numerator() * pa,
                    a.neg == b.neg,
                    a.neg ==> a.numerator() == -ma && b.numerator() == -mb,
                    !a.neg ==> a.numerator() == ma && b.numerator() == mb,
            ;
            if a.scale < b.scale {
                lemma_unequal_scales(a, b);
                assert(b.mant % 10 != 0);
                assert(false);
            } else if b.scale < a.scale {
                assert(mb * pa == ma * pb);
                lemma_unequal_scales(b, a);
                assert(a.mant % 10 != 0);
                assert(false);
            } else {
                assert(ma * pb == mb * pb);
                assert(ma == mb) by (nonlinear_arith)
                    requires
                        ma * pb == mb * pb,
                        pb >= 1,
                ;
                assert(a == b);
            }
        }
    }
}

/// Helper: when two nonzero decimals with different scales denote the same
/// number, the one with the larger scale has a mantissa divisible by ten —
/// which a canonical decimal with a positive scale never has.
proof fn lemma_unequal_scales(a: Decimal, b: Decimal)
    requires
        a.mant > 0,
        b.mant > 0,
        a.scale < b.scale,
        a.mant * pow10(b.scale as nat) == b.mant * pow10(a.scale as nat),
    ensures
        b.mant % 10 == 0,
{
    let d = (b.scale - a.scale) as nat;
    lemma_pow10_pos(a.scale as nat);
    lemma_pow10_pos(d);
    lemma_pow10_add(a.scale as nat, d);
    let pa = pow10(a.scale as nat) as int;
    let pd = pow10(d) as int;
    let ma = a.mant as int;
    let mb = b.mant as int;
    assert(pow10(b.scale as nat) == pa * pd);
    assert(ma * (pa * pd) == mb * pa);
    assert(ma * pd == mb) by (nonlinear_arith)
        requires
            ma * (pa * pd) == mb * pa,
            pa >= 1,
    ;
    assert(d >= 1);
    assert(pd == 10 * pow10((d - 1) as nat));
    let q = ma * pow10((d - 1) as nat) as int;
    assert(mb == 10 * q) by (nonlinear_arith)
        requires
            mb == ma * pd,
            pd == 10 * pow10((d - 1) as nat),
            q == ma * pow10((d - 1) as nat) as int,
    ;
    assert(mb % 10 == 0) by (nonlinear_arith)
        requires
            mb == 10 * q,
    ;
}

/// The absolute value of an integer.
pub open spec fn abs_int(x: int) -> int {
    if x < 0 {
        -x
    } else {
        x
    }
}

/// Larger exponents give larger powers of ten.
pub proof fn lemma_pow10_monotone(a: nat, b: nat)
    requires
        a <= b,
    ensures
        pow10(a) <= pow10(b),
    decreases b,
{
    if a < b {
        lemma_pow10_monotone(a, (b - 1) as nat);
        lemma_pow10_pos((b - 1) as nat);
    }
}

/// Exact powers of ten that fit in 128 bits.
fn pow10_u128(n: u32) -> (r: u128)
    requires
        n <= 38,
    ensures
        r as nat == pow10(n as nat),
{
    let mut acc: u128 = 1;
    let mut i: u32 = 0;
    while i < n
        invariant
            i <= n,
            n <= 38,
            acc as nat == pow10(i as nat),
        decreases n - i,
    {
        proof {
            reveal_with_fuel(pow10, 40);
            lemma_pow10_monotone(i as nat, 37);
            assert(pow10(37) == 10_000_000_000_000_000_000_000_000_000_000_000_000);
        }
        acc = acc * 10;
        i = i + 1;
    }
    acc
}

impl Decimal {
    /// Whether this value and `other` lie strictly within `1e-6` of each
    /// other: the absolute tolerance under which numeric tokens compare
    /// equal, stated by cross multiplication.
    pub open spec fn approx_eq_spec(self, other: Decimal) -> bool {
        abs_int(
            self.numerator() * pow10(other.scale as nat) - other.numerator() * pow10(
                self.scale as nat,
            ),
        ) * pow10(6) < pow10(self.scale as nat + other.scale as nat)
    }

    /// Compare with absolute tolerance `1e-6`, exactly as
    /// [`Decimal::approx_eq_spec`] says, for any mantissas. The scale bound
    /// is the comparison's domain: up to nineteen fractional digits on each
    /// side, every cross product fits in 128 bits; beyond it the exact
    /// products are not representable in any fixed width. A literal with
    /// more fractional digits than that can be lexed but not compared here.
    pub fn approx_eq(self, other: Decimal) -> (r: bool)
        requires
            self.scale <= 19,
            other.scale <= 19,
        ensures
            r == self.approx_eq_spec(other),
    {
        proof {
            reveal_with_fuel(pow10, 40);
            assert(pow10(19) == 10_000_000_000_000_000_000);
            assert(pow10(38) == pow10(19) * pow10(19)) by {
                lemma_pow10_add(19, 19);
            }
            assert(pow10(38) == 100_000_000_000_000_000_000_000_000_000_000_000_000);
            lemma_pow10_monotone(self.scale as nat, 19);
            lemma_pow10_monotone(other.scale as nat, 19);
            lemma_pow10_pos(self.scale as nat);
            lemma_pow10_pos(other.scale as nat);
        }
        let pa = pow10_u128(self.scale);
        let pb = pow10_u128(other.scale);
        proof {
            assert((u64::MAX as nat) * pow10(19)
                == 184467440737095516150000000000000000000nat) by (nonlinear_arith)
                requires
                    pow10(19) == 10_000_000_000_000_000_000nat,
            ;
            assert((self.mant as nat) * (pb as nat) <= (u64::MAX as nat) * pow10(19))
                by (nonlinear_arith)
                requires
                    (self.mant as nat) <= u64::MAX as nat,
                    1 <= pb as nat <= pow10(19),
            ;
            assert((other.mant as nat) * (pa as nat) <= (u64::MAX as nat) * pow10(19))
                by (nonlinear_arith)
                requires
                    (other.mant as nat) <= u64::MAX as nat,
                    1 <= pa as nat <= pow10(19),
            ;
        }
        let ta = (self.mant as u128) * pb;
        let tb = (other.mant as u128) * pa;
        let ghost na = self.numerator() * pow10(other.scale as nat);
        let ghost nb = other.numerator() * pow10(self.scale as nat);
        proof {
            if self.neg {
                assert(na == -(ta as int)) by (nonlinear_arith)
                    requires
                        self.numerator() == -(self.mant as int),
                        na == self.numerator() * pow10(other.scale as nat),
                        ta as int == (self.mant as int) * (pow10(other.scale as nat) as int),
                ;
            } else {
                assert(na == ta as int);
            }
            if other.neg {
                assert(nb == -(tb as int)) by (nonlinear_arith)
                    requires
                        other.numerator() == -(other.mant as int),
                        nb == other.numerator() * pow10(self.scale as nat),
                        tb as int == (other.mant as int) * (pow10(self.scale as nat) as int),
                ;
            } else {
                assert(nb == tb as int);
            }
        }
        let s = self.scale + other.scale;
        proof {
            lemma_pow10_add(self.scale as nat, other.scale as nat);
            lemma_pow10_monotone(s as nat, 38);
            lemma_pow10_pos(6);
        }
        let diff: u128 = if self.neg == other.neg {
            if ta >= tb {
                ta - tb
            } else {
                tb - ta
            }
        } else {
            if tb > u128::MAX - ta {
                // The magnitudes alone exceed what the matrix of powers can
                // reach: the values are certainly farther apart than 1e-6.
                proof {
                    assert(abs_int(na - nb) == ta as int + tb as int);
                    assert(abs_int(na - nb) > u128::MAX as int);
                    assert(abs_int(na - nb) * pow10(6) >= abs_int(na - nb)) by (nonlinear_arith)
                        requires
                            abs_int(na - nb) >= 0,
                            pow10(6) >= 1,
                    ;
                    assert(pow10(s as nat) <= pow10(38));
                    assert(!(abs_int(na - nb) * pow10(6) < pow10(s as nat)));
                    assert(!self.approx_eq_spec(other));
                }
                return false;
            }
            ta + tb
        };
        proof {
            assert(diff as int == abs_int(na - nb));
        }
        if s >= 6 {
            let bound = pow10_u128(s - 6);
            proof {
                lemma_pow10_add((s - 6) as nat, 6);
                lemma_pow10_pos((s - 6) as nat);
                assert(pow10(6) == 1_000_000) by {
                    reveal_with_fuel(pow10, 8);
                }
                assert((diff as int) * pow10(6) < pow10(s as nat) <==> (diff as int) < bound
                    as int) by (nonlinear_arith)
                    requires
                        pow10(s as nat) == (bound as nat) * pow10(6),
                        bound as nat == pow10((s - 6) as nat),
                        pow10(6) >= 1,
                        diff as int >= 0,
                ;
            }
            diff < bound
        } else {
            proof {
                assert(pow10(6) == 1_000_000) by {
                    reveal_with_fuel(pow10, 8);
                }
                lemma_pow10_monotone(s as nat, 5);
                assert(pow10(5) == 100_000) by {
                    reveal_with_fuel(pow10, 8);
                }
                lemma_pow10_pos(s as nat);
                assert((diff as int) * pow10(6) < pow10(s as nat) <==> diff == 0)
                    by (nonlinear_arith)
                    requires
                        diff as int >= 0,
                        1 <= pow10(s as nat) <= 100_000,
                        pow10(6) == 1_000_000,
                ;
            }
            diff == 0
        }
    }
}
} // verus!
