//! The recursive-descent parser.
//!
//! Grammar (keywords case-sensitive):
//!
//! ```text
//! Program     := EOL* Objective EOL EOL* Constraints
//! Objective   := ("max"|"min") "{" EOL* Expression EOL* "}"
//! Constraints := "st" "{" EOL* Constraint+ "}"
//! Constraint  := Expression Comparator Number EOL
//! Expression  := Term (("*"|"/") Term)* (("+"|"-") Term (("*"|"/") Term)*)*
//! Term        := Variable | Number | "(" Expression ")" | "[" Expression "]"
//! ```
//!
//! Every rule inserts exactly one node for itself before recursing, threading
//! its own index as the parent, so the tree mirrors the derivation. The first
//! unexpected token or premature end of input aborts the whole parse with a
//! structured [`ParseError`]; there is no recovery.

use vstd::prelude::*;

use crate::ast::{extends, node_children, touches_only, ASTNodeTypes, AST};
use crate::token_automata::{kw_chars, Keyword};
use crate::tokenizer::{
    cur_measure, cur_of, cur_peek, cur_peeked, cur_skip_eols, cur_take, end_of_line, start_of_line,
    Cursor, ParseError, Tokenizer, TokenizerIterator,
};
use crate::tokens::{
    opt_token_view, token_content_eq, token_kinds_match, token_same_kind, ArithOperation,
    CmpOperation, Decimal, Token, TokenV,
};

verus! {

/// Placeholder for a structured objective, reserved for a later stage.
pub struct Objective {}

/// Placeholder for a structured constraint, reserved for a later stage.
pub struct Constraint {}

/// The shape the parser gives every `Constraint` node: an expression, a
/// comparator leaf, and a right-hand-side leaf holding a number.
pub open spec fn constraint_shape(ast: AST, cc: int) -> bool {
    let kids = node_children(ast.nodes@[cc]);
    &&& 0 <= cc < ast.nodes@.len()
    &&& kids.len() == 3
    &&& kids[0] < ast.nodes@.len() && kids[1] < ast.nodes@.len() && kids[2] < ast.nodes@.len()
    &&& ast.nodes@[kids[0] as int].node_type == ASTNodeTypes::Expression
    &&& ast.nodes@[kids[1] as int].node_type == ASTNodeTypes::Token
    &&& ast.nodes@[kids[2] as int].node_type == ASTNodeTypes::RHS
    &&& match ast.nodes@[kids[1] as int].data_index {
        Some(d) => d < ast.data@.len() && ast.data@[d as int]@ is Cmp,
        None => false,
    }
    &&& match ast.nodes@[kids[2] as int].data_index {
        Some(d) => d < ast.data@.len() && ast.data@[d as int]@ is Num,
        None => false,
    }
}

/// Every child of node `cs` is a well-shaped `Constraint` node.
pub open spec fn all_constraints_shaped(ast: AST, cs: int) -> bool {
    forall|k: int|
        0 <= k < node_children(ast.nodes@[cs]).len() ==> ast.nodes@[(#[trigger] node_children(
            ast.nodes@[cs],
        )[k]) as int].node_type == ASTNodeTypes::Constraint && constraint_shape(
            ast,
            node_children(ast.nodes@[cs])[k] as int,
        )
}

/// A well-shaped constraint node stays well shaped when the arena only
/// grows and the node in question gains no children.
pub proof fn lemma_constraint_shape_preserved(post: AST, pre: AST, cc: int)
    requires
        constraint_shape(pre, cc),
        extends(post, pre),
        node_children(post.nodes@[cc]) == node_children(pre.nodes@[cc]),
    ensures
        constraint_shape(post, cc),
{
    let kids = node_children(pre.nodes@[cc]);
    assert(post.nodes@[kids[0] as int].node_type == pre.nodes@[kids[0] as int].node_type);
    assert(post.nodes@[kids[1] as int].node_type == pre.nodes@[kids[1] as int].node_type);
    assert(post.nodes@[kids[2] as int].node_type == pre.nodes@[kids[2] as int].node_type);
}

/// Whether `tv` is an additive operator token (`+` or `-`).
pub open spec fn is_additive(tv: TokenV) -> bool {
    match tv {
        TokenV::ArithOp(op) => op == ArithOperation::Add || op == ArithOperation::Sub,
        _ => false,
    }
}

/// Whether `tv` is a multiplicative operator token (`*` or `/`).
pub open spec fn is_multiplicative(tv: TokenV) -> bool {
    match tv {
        TokenV::ArithOp(op) => op == ArithOperation::Mul || op == ArithOperation::Div,
        _ => false,
    }
}

/// Whether `tv` can start a term: a variable, a number, or an opening
/// parenthesis or square bracket.
pub open spec fn starts_term(tv: TokenV) -> bool {
    tv is Variable || tv is Num || tv == TokenV::LParen('(') || tv == TokenV::LParen('[')
}

/// Whether `tv` stops an expression: a closing bracket or a comparator.
pub open spec fn stops_expression(tv: TokenV) -> bool {
    tv is RParen || tv is Cmp
}

/// The token a second read would yield, once the next token is consumed.
pub open spec fn second_token(it: TokenizerIterator) -> Option<TokenV> {
    crate::tokenizer::stream_next(it.chars(), it.spec_next().1, it.spec_next().2, None).0
}

/// The payload of an error raised at the iterator's final position: the
/// expectation text, the offending token (or none at the end of the input),
/// the line number, and the text of the line the cursor is on.
pub open spec fn error_at(e: ParseError, it: TokenizerIterator, expected: Seq<char>, got: Option<TokenV>) -> bool {
    &&& e.expected@ == expected
    &&& opt_token_view(e.got) == got
    &&& e.line_number == it.current_line_number
    &&& e.line_text@ == it.chars().subrange(
        start_of_line(it.chars(), it.pointer as int),
        end_of_line(it.chars(), start_of_line(it.chars(), it.pointer as int)),
    )
}

// ---------------------------------------------------------------------------
// Acceptance: which token streams each grammar rule derives
// ---------------------------------------------------------------------------
//
// Each `accept_*` function walks the abstract cursor exactly as the parser
// does and returns the cursor after the derivation, or `None` where the
// parser raises an error. The recursion inside the expression family and
// the constraint list is guarded by the same measure the parser's own
// termination uses; the guards always pass on cursors the parser reaches.

/// Whether the stream at `c` derives one term, and where it ends:
/// a variable or number leaf, or a bracketed sub-expression.
pub open spec fn accept_term(c: Cursor) -> Option<Cursor>
    decreases cur_measure(c), 1int,
{
    match cur_peek(c) {
        None => None,
        Some(tv) => {
            if tv is Variable || tv is Num {
                Some(cur_take(c))
            } else if tv == TokenV::LParen('(') {
                let c1 = cur_take(c);
                if 0 <= cur_measure(c1) && cur_measure(c1) < cur_measure(c) {
                    match accept_expression(c1) {
                        None => None,
                        Some(c2) => {
                            if cur_peek(c2) == Some(TokenV::RParen(')')) {
                                Some(cur_take(c2))
                            } else {
                                None
                            }
                        },
                    }
                } else {
                    None
                }
            } else if tv == TokenV::LParen('[') {
                let c1 = cur_take(c);
                if 0 <= cur_measure(c1) && cur_measure(c1) < cur_measure(c) {
                    match accept_expression(c1) {
                        None => None,
                        Some(c2) => {
                            if cur_peek(c2) == Some(TokenV::RParen(']')) {
                                Some(cur_take(c2))
                            } else {
                                None
                            }
                        },
                    }
                } else {
                    None
                }
            } else {
                None
            }
        },
    }
}

/// Whether the stream at `c` derives a run of terms bound by `*`/`/`,
/// stopping before an additive operator, a closing bracket or a comparator.
pub open spec fn accept_point(c: Cursor) -> Option<Cursor>
    decreases cur_measure(c), 2int,
{
    match cur_peek(c) {
        None => None,
        Some(tv) => {
            if is_additive(tv) || stops_expression(tv) {
                Some(cur_peeked(c))
            } else if starts_term(tv) {
                proof {
                    if c.buf is None && !(0 <= c.pos < c.chars.len()) {
                        assert(cur_peek(c) is None);
                    }
                    if c.buf is None {
                        crate::tokenizer::lemma_spec_lex_bounds(
                            c.chars,
                            c.pos,
                            c.line,
                            crate::tokenizer::init_machine(),
                            Seq::empty(),
                        );
                        crate::tokenizer::lemma_spec_lex_progress(
                            c.chars,
                            c.pos,
                            c.line,
                            crate::tokenizer::init_machine(),
                        );
                    }
                }
                match accept_term(cur_peeked(c)) {
                    None => None,
                    Some(c1) => {
                        if 0 <= cur_measure(c1) && cur_measure(c1) < cur_measure(c) {
                            accept_point(c1)
                        } else {
                            None
                        }
                    },
                }
            } else if is_multiplicative(tv) {
                let c1 = cur_take(c);
                if 0 <= cur_measure(c1) && cur_measure(c1) < cur_measure(c) {
                    accept_point(c1)
                } else {
                    None
                }
            } else {
                None
            }
        },
    }
}

/// Whether the stream at `c` derives the additive tail of an expression,
/// stopping before a closing bracket or a comparator.
pub open spec fn accept_line(c: Cursor) -> Option<Cursor>
    decreases cur_measure(c), 2int,
{
    match cur_peek(c) {
        None => None,
        Some(tv) => {
            if stops_expression(tv) {
                Some(cur_peeked(c))
            } else if is_additive(tv) {
                let c1 = cur_take(c);
                if 0 <= cur_measure(c1) && cur_measure(c1) < cur_measure(c) {
                    match accept_point(c1) {
                        None => None,
                        Some(c2) => {
                            if 0 <= cur_measure(c2) && cur_measure(c2) < cur_measure(c) {
                                accept_line(c2)
                            } else {
                                None
                            }
                        },
                    }
                } else {
                    None
                }
            } else {
                None
            }
        },
    }
}

/// Whether the stream at `c` derives a whole expression.
pub open spec fn accept_expression(c: Cursor) -> Option<Cursor>
    decreases cur_measure(c), 3int,
{
    match accept_point(c) {
        None => None,
        Some(c1) => {
            if 0 <= cur_measure(c1) && cur_measure(c1) <= cur_measure(c) {
                accept_line(c1)
            } else {
                None
            }
        },
    }
}

/// Whether the stream at `c` derives the remaining constraint lines up to,
/// but not including, the closing `}`.
pub open spec fn accept_constraint(c: Cursor) -> Option<Cursor>
    decreases cur_measure(c),
{
    match cur_peek(c) {
        None => None,
        Some(tv) => {
            if tv == TokenV::RParen('}') {
                Some(cur_peeked(c))
            } else if tv is Cmp || tv is Num || tv is Variable || tv is ArithOp || tv
                == TokenV::LParen('[') || tv == TokenV::LParen('(') {
                match accept_expression(cur_peeked(c)) {
                    None => None,
                    Some(c1) => {
                        if (match cur_peek(c1) {
                            Some(t1) => t1 is Cmp,
                            None => false,
                        }) {
                            let c2 = cur_take(c1);
                            if (match cur_peek(c2) {
                                Some(t2) => t2 is Num,
                                None => false,
                            }) {
                                let c3 = cur_take(c2);
                                if cur_peek(c3) == Some(TokenV::EOL) {
                                    let c4 = cur_take(c3);
                                    if 0 <= cur_measure(c4) && cur_measure(c4) < cur_measure(c) {
                                        accept_constraint(c4)
                                    } else {
                                        None
                                    }
                                } else {
                                    None
                                }
                            } else {
                                None
                            }
                        } else {
                            None
                        }
                    },
                }
            } else {
                None
            }
        },
    }
}

/// Whether the stream at `c` derives a whole constraint block:
/// `"st" "{" EOL* Constraint+ "}"`.
pub open spec fn accept_constraints(c: Cursor) -> Option<Cursor> {
    if cur_peek(c) == Some(TokenV::Fun(kw_chars(Keyword::St))) {
        let c1 = cur_take(c);
        if cur_peek(c1) == Some(TokenV::LParen('{')) {
            let c2 = cur_take(c1);
            let sk = cur_skip_eols(c2);
            if sk.0 {
                if cur_peek(sk.1) == Some(TokenV::RParen('}')) {
                    None
                } else {
                    match accept_constraint(sk.1) {
                        None => None,
                        Some(c3) => {
                            let sk2 = cur_skip_eols(c3);
                            if sk2.0 && cur_peek(sk2.1) == Some(TokenV::RParen('}')) {
                                Some(cur_take(sk2.1))
                            } else {
                                None
                            }
                        },
                    }
                }
            } else {
                None
            }
        } else {
            None
        }
    } else {
        None
    }
}

/// Whether the stream at `c` derives a whole objective:
/// `("max"|"min") "{" EOL* Expression EOL* "}"`.
pub open spec fn accept_objective(c: Cursor) -> Option<Cursor> {
    if (match cur_peek(c) {
        Some(tv) => tv == TokenV::Fun(kw_chars(Keyword::Min)) || tv == TokenV::Fun(
            kw_chars(Keyword::Max),
        ),
        None => false,
    }) {
        let c1 = cur_take(c);
        if cur_peek(c1) == Some(TokenV::LParen('{')) {
            let c2 = cur_take(c1);
            let sk = cur_skip_eols(c2);
            if sk.0 {
                match accept_expression(sk.1) {
                    None => None,
                    Some(c3) => {
                        let sk2 = cur_skip_eols(c3);
                        if sk2.0 && cur_peek(sk2.1) == Some(TokenV::RParen('}')) {
                            Some(cur_take(sk2.1))
                        } else {
                            None
                        }
                    },
                }
            } else {
                None
            }
        } else {
            None
        }
    } else {
        None
    }
}

/// The objective, a line break, blank lines, then the constraint block.
pub open spec fn accept_program_body(c: Cursor) -> Option<Cursor> {
    match accept_objective(c) {
        None => None,
        Some(c1) => {
            if cur_peek(c1) == Some(TokenV::EOL) {
                let c2 = cur_take(c1);
                let sk = cur_skip_eols(c2);
                if sk.0 {
                    accept_constraints(sk.1)
                } else {
                    None
                }
            } else {
                None
            }
        },
    }
}

/// Whether the stream at `c` derives a whole program:
/// `EOL* Objective EOL EOL* Constraints`.
pub open spec fn accept_program(c: Cursor) -> Option<Cursor> {
    match cur_peek(c) {
        None => None,
        Some(tv) => {
            if tv == TokenV::Fun(kw_chars(Keyword::Max)) || tv == TokenV::Fun(
                kw_chars(Keyword::Min),
            ) {
                accept_program_body(cur_peeked(c))
            } else if tv is EOL {
                let sk = cur_skip_eols(c);
                if sk.0 {
                    accept_program_body(sk.1)
                } else {
                    None
                }
            } else {
                None
            }
        },
    }
}

/// Whether `s` holds exactly the characters of `lit`.
fn string_is(s: &String, lit: &str) -> (r: bool)
    ensures
        r == (s@ == lit@),
{
    let l = String::from_str(lit);
    s.eq(&l)
}

/// Pull the next token and require its content to be one of `cmp`.
///
/// Returns the token on success; fails on end of input or when the token
/// matches no entry of `cmp`, with `err_msg` in the error.
#[verifier::loop_isolation(false)]
fn pull_and_compare_content(
    iterator: &mut TokenizerIterator,
    cmp: &[Token],
    err_msg: &str,
) -> (r: Result<Token, ParseError>)
    requires
        old(iterator).wf(),
    ensures
        final(iterator).wf(),
        final(iterator).chars() == old(iterator).chars(),
        final(iterator).measure() <= old(iterator).measure(),
        final(iterator).pointer as int == old(iterator).spec_next().1,
        final(iterator).current_line_number == old(iterator).spec_next().2,
        final(iterator).peek_buffer is None,
        match r {
            Ok(t) => {
                &&& old(iterator).spec_next().0 == Some(t@)
                &&& exists|i: int| 0 <= i < cmp@.len() && (#[trigger] cmp@[i])@ == t@
                &&& final(iterator).measure() < old(iterator).measure()
            },
            Err(e) => {
                &&& match old(iterator).spec_next().0 {
                    None => true,
                    Some(tv) => forall|i: int| 0 <= i < cmp@.len() ==> (#[trigger] cmp@[i])@ != tv,
                }
                &&& error_at(e, *final(iterator), err_msg@, old(iterator).spec_next().0)
            },
        },
{
    match iterator.next() {
        Some(t) => {
            let mut i: usize = 0;
            while i < cmp.len()
                invariant
                    i <= cmp@.len(),
                    forall|j: int| 0 <= j < i ==> (#[trigger] cmp@[j])@ != t@,
                decreases cmp@.len() - i,
            {
                if token_content_eq(&cmp[i], &t) {
                    return Ok(t);
                }
                i = i + 1;
            }
            let err = iterator.raise_parsing_error(err_msg, Some(t));
            Err(err)
        },
        None => {
            let err = iterator.raise_parsing_error(err_msg, None);
            Err(err)
        },
    }
}

/// Pull the next token and require its kind (tag only) to be one of `cmp`.
#[verifier::loop_isolation(false)]
fn pull_and_compare_token(
    iterator: &mut TokenizerIterator,
    cmp: &[Token],
    err_msg: &str,
) -> (r: Result<Token, ParseError>)
    requires
        old(iterator).wf(),
    ensures
        final(iterator).wf(),
        final(iterator).chars() == old(iterator).chars(),
        final(iterator).measure() <= old(iterator).measure(),
        final(iterator).pointer as int == old(iterator).spec_next().1,
        final(iterator).current_line_number == old(iterator).spec_next().2,
        final(iterator).peek_buffer is None,
        match r {
            Ok(t) => {
                &&& old(iterator).spec_next().0 == Some(t@)
                &&& exists|i: int|
                    0 <= i < cmp@.len() && token_kinds_match((#[trigger] cmp@[i])@, t@)
                &&& final(iterator).measure() < old(iterator).measure()
            },
            Err(e) => {
                &&& match old(iterator).spec_next().0 {
                    None => true,
                    Some(tv) => forall|i: int|
                        0 <= i < cmp@.len() ==> !token_kinds_match((#[trigger] cmp@[i])@, tv),
                }
                &&& error_at(e, *final(iterator), err_msg@, old(iterator).spec_next().0)
            },
        },
{
    match iterator.next() {
        Some(t) => {
            let mut i: usize = 0;
            while i < cmp.len()
                invariant
                    i <= cmp@.len(),
                    forall|j: int| 0 <= j < i ==> !token_kinds_match((#[trigger] cmp@[j])@, t@),
                decreases cmp@.len() - i,
            {
                if token_same_kind(&cmp[i], &t) {
                    return Ok(t);
                }
                i = i + 1;
            }
            let err = iterator.raise_parsing_error(err_msg, Some(t));
            Err(err)
        },
        None => {
            let err = iterator.raise_parsing_error(err_msg, None);
            Err(err)
        },
    }
}

/// Skip the maximal run of end-of-line tokens; fail only when the stream
/// ends inside the run, exactly as [`skip_eols`] says.
///
/// On success the next token exists, is not an end-of-line marker, and is
/// left buffered. The arena is handed through untouched.
pub fn ignore_eol(iterator: &mut TokenizerIterator, ast: &mut AST, parent: usize) -> (r: Result<
    (),
    ParseError,
>)
    requires
        old(iterator).wf(),
    ensures
        final(iterator).wf(),
        final(iterator).chars() == old(iterator).chars(),
        final(iterator).measure() <= old(iterator).measure(),
        *final(ast) == *old(ast),
        ({
            let s = crate::tokenizer::skip_eols(
                old(iterator).chars(),
                old(iterator).pointer as int,
                old(iterator).current_line_number,
                opt_token_view(old(iterator).peek_buffer),
            );
            &&& final(iterator).pointer as int == s.1
            &&& final(iterator).current_line_number == s.2
            &&& opt_token_view(final(iterator).peek_buffer) == s.3
            &&& r is Ok <==> s.0
            &&& match r {
                Ok(_) => match s.3 {
                    Some(tv) => !(tv is EOL),
                    None => false,
                },
                Err(e) => error_at(e, *final(iterator), "expected line break"@, None),
            }
        }),
        match r {
            Ok(_) => match final(iterator).spec_next().0 {
                Some(tv) => !(tv is EOL),
                None => false,
            },
            Err(_) => true,
        },
    decreases old(iterator).measure(), 0int,
{
    proof {
        crate::tokenizer::lemma_spec_lex_bounds(
            old(iterator).chars(),
            old(iterator).pointer as int,
            old(iterator).current_line_number,
            crate::tokenizer::init_machine(),
            Seq::empty(),
        );
    }
    match iterator.peek() {
        Some(Token::EOL) => {
            let mut cmp: Vec<Token> = Vec::new();
            cmp.push(Token::EOL);
            let pulled = pull_and_compare_content(iterator, cmp.as_slice(), "expected line break");
            match pulled {
                Ok(_) => ignore_eol(iterator, ast, parent),
                Err(e) => {
                    proof {
                        assert(cmp@[0]@ is EOL);
                        assert(false);
                    }
                    Err(e)
                },
            }
        },
        Some(t) => {
            proof {
                assert(!(t@ is EOL));
            }
            Ok(())
        },
        None => {
            let err = iterator.raise_parsing_error("expected line break", None);
            Err(err)
        },
    }
}

/// Parse a whole program: optional blank lines, the objective, a line break,
/// more blank lines, then the constraints.
///
/// On success the arena gained a `Program` root and holds an `Objective` and
/// a `Constraints` node for the semantic pass to find.
#[verifier::rlimit(80)]
pub fn program(iterator: &mut TokenizerIterator, ast: &mut AST) -> (r: Result<(), ParseError>)
    requires
        old(iterator).wf(),
        old(ast).wf(),
    ensures
        final(iterator).wf(),
        final(iterator).chars() == old(iterator).chars(),
        final(iterator).measure() <= old(iterator).measure(),
        final(ast).wf(),
        extends(*final(ast), *old(ast)),
        match r {
            Ok(_) => {
                &&& final(ast).nodes@.len() > old(ast).nodes@.len()
                &&& final(ast).nodes@[old(ast).nodes@.len() as int].node_type
                    == ASTNodeTypes::Program
                &&& final(ast).nodes@[old(ast).nodes@.len() as int].parent is None
                &&& forall|i: int|
                    old(ast).nodes@.len() < i < final(ast).nodes@.len()
                        ==> (#[trigger] final(ast).nodes@[i]).node_type != ASTNodeTypes::Program
                &&& exists|i: int|
                    0 <= i < final(ast).nodes@.len() && (#[trigger] final(ast).nodes@[i]).node_type
                        == ASTNodeTypes::Objective
                &&& exists|i: int|
                    0 <= i < final(ast).nodes@.len() && (#[trigger] final(ast).nodes@[i]).node_type
                        == ASTNodeTypes::Constraints
                &&& exists|cs: int|
                    0 <= cs < final(ast).nodes@.len()
                        && (#[trigger] final(ast).nodes@[cs]).node_type
                        == ASTNodeTypes::Constraints && all_constraints_shaped(*final(ast), cs)
            },
            Err(_) => true,
        },
        (match old(iterator).spec_next().0 {
            Some(tv) => !(tv is EOL) && tv != TokenV::Fun(kw_chars(Keyword::Max)) && tv
                != TokenV::Fun(kw_chars(Keyword::Min)),
            None => true,
        }) ==> r is Err,
        r is Ok ==> accept_program(cur_of(*old(iterator))) == Some(cur_of(*final(iterator))),
        r is Err ==> accept_program(cur_of(*old(iterator))) is None,
    decreases old(iterator).measure(), 6int,
{
    let ghost c0 = cur_of(*old(iterator));
    proof {
        assert(cur_peek(c0) == old(iterator).spec_next().0);
    }
    let peeked = iterator.peek();
    proof {
        assert(cur_of(*iterator) == cur_peeked(c0));
        reveal_strlit("max");
        reveal_strlit("min");
        assert("max"@ =~= kw_chars(Keyword::Max));
        assert("min"@ =~= kw_chars(Keyword::Min));
    }
    match peeked {
        Some(Token::Fun(s)) => {
            if string_is(&s, "max") || string_is(&s, "min") {
                proof {
                    assert(accept_program(c0) == accept_program_body(cur_peeked(c0)));
                }
                let program_node = ast.insert_node(None, None, ASTNodeTypes::Program);
                let ghost ast1 = *ast;
                match objective(iterator, ast, program_node) {
                    Err(e) => {
                        proof {
                            assert(accept_program(c0) is None);
                        }
                        return Err(e);
                    },
                    Ok(_) => {},
                }
                let ghost ast2 = *ast;
                let ghost ob = ast1.nodes@.len() as int;
                let ghost d1 = cur_of(*iterator);
                let mut cmp: Vec<Token> = Vec::new();
                cmp.push(Token::EOL);
                proof {
                    assert(cmp@[0]@ is EOL);
                }
                match pull_and_compare_content(iterator, cmp.as_slice(), "expected line break") {
                    Err(e) => {
                        proof {
                            assert(accept_program(c0) is None);
                        }
                        return Err(e);
                    },
                    Ok(_) => {},
                }
                proof {
                    assert(cur_of(*iterator) == cur_take(d1));
                }
                let ghost d2 = cur_of(*iterator);
                match ignore_eol(iterator, ast, program_node) {
                    Err(e) => {
                        proof {
                            assert(!cur_skip_eols(d2).0);
                            assert(accept_program(c0) is None);
                        }
                        return Err(e);
                    },
                    Ok(_) => {},
                }
                proof {
                    assert(cur_of(*iterator) == cur_skip_eols(d2).1);
                    assert(program_node < ast2.nodes@.len());
                }
                let ghost cs = ast.nodes@.len() as int;
                match constraints(iterator, ast, program_node) {
                    Err(e) => {
                        proof {
                            assert(accept_program(c0) is None);
                        }
                        return Err(e);
                    },
                    Ok(_) => {},
                }
                proof {
                    assert(final(ast).nodes@[ob].node_type == ASTNodeTypes::Objective);
                    assert(final(ast).nodes@[cs].node_type == ASTNodeTypes::Constraints);
                    assert(all_constraints_shaped(*final(ast), cs));
                    assert(accept_program(c0) == Some(cur_of(*iterator)));
                    assert forall|i: int|
                        program_node < i < ast.nodes@.len() implies (#[trigger] ast.nodes@[i]).node_type
                        != ASTNodeTypes::Program by {
                        if i < ast2.nodes@.len() {
                            assert(ast.nodes@[i].node_type == ast2.nodes@[i].node_type);
                        }
                    }
                }
                Ok(())
            } else {
                proof {
                    assert(s@ != kw_chars(Keyword::Max) && s@ != kw_chars(Keyword::Min));
                    assert(accept_program(c0) is None);
                }
                let err = iterator.raise_parsing_error(
                    "expected objective declaration",
                    Some(Token::Fun(s)),
                );
                Err(err)
            }
        },
        Some(Token::EOL) => {
            let ghost cp = cur_of(*iterator);
            proof {
                assert(crate::tokenizer::skip_eols(c0.chars, c0.pos, c0.line, c0.buf)
                    == crate::tokenizer::skip_eols(cp.chars, cp.pos, cp.line, cp.buf));
            }
            let program_node = ast.insert_node(None, None, ASTNodeTypes::Program);
            match ignore_eol(iterator, ast, program_node) {
                Err(e) => {
                    proof {
                        assert(!cur_skip_eols(c0).0);
                        assert(accept_program(c0) is None);
                    }
                    return Err(e);
                },
                Ok(_) => {},
            }
            proof {
                assert(cur_of(*iterator) == cur_skip_eols(c0).1);
                assert(accept_program(c0) == accept_program_body(cur_skip_eols(c0).1));
            }
            let ghost ast1 = *ast;
            match objective(iterator, ast, program_node) {
                Err(e) => {
                    proof {
                        assert(accept_program(c0) is None);
                    }
                    return Err(e);
                },
                Ok(_) => {},
            }
            let ghost ast2 = *ast;
            let ghost ob = ast1.nodes@.len() as int;
            let ghost d1 = cur_of(*iterator);
            let mut cmp: Vec<Token> = Vec::new();
            cmp.push(Token::EOL);
            proof {
                assert(cmp@[0]@ is EOL);
            }
            match pull_and_compare_content(iterator, cmp.as_slice(), "expected line break") {
                Err(e) => {
                    proof {
                        assert(accept_program(c0) is None);
                    }
                    return Err(e);
                },
                Ok(_) => {},
            }
            proof {
                assert(cur_of(*iterator) == cur_take(d1));
            }
            let ghost d2 = cur_of(*iterator);
            match ignore_eol(iterator, ast, program_node) {
                Err(e) => {
                    proof {
                        assert(!cur_skip_eols(d2).0);
                        assert(accept_program(c0) is None);
                    }
                    return Err(e);
                },
                Ok(_) => {},
            }
            proof {
                assert(cur_of(*iterator) == cur_skip_eols(d2).1);
                assert(program_node < ast2.nodes@.len());
            }
            let ghost cs = ast.nodes@.len() as int;
            match constraints(iterator, ast, program_node) {
                Err(e) => {
                    proof {
                        assert(accept_program(c0) is None);
                    }
                    return Err(e);
                },
                Ok(_) => {},
            }
            proof {
                assert(final(ast).nodes@[ob].node_type == ASTNodeTypes::Objective);
                assert(final(ast).nodes@[cs].node_type == ASTNodeTypes::Constraints);
                assert(all_constraints_shaped(*final(ast), cs));
                assert(accept_program(c0) == Some(cur_of(*iterator)));
                assert forall|i: int|
                    program_node < i < ast.nodes@.len() implies (#[trigger] ast.nodes@[i]).node_type
                    != ASTNodeTypes::Program by {
                    if i < ast2.nodes@.len() {
                        assert(ast.nodes@[i].node_type == ast2.nodes@[i].node_type);
                    }
                }
            }
            Ok(())
        },
        Some(t) => {
            proof {
                assert(accept_program(c0) is None);
            }
            let err = iterator.raise_parsing_error("expected objective declaration", Some(t));
            Err(err)
        },
        None => {
            proof {
                assert(accept_program(c0) is None);
            }
            let err = iterator.raise_parsing_error("expected objective declaration", None);
            Err(err)
        },
    }
}

/// Parse `("max"|"min") "{" EOL* Expression EOL* "}"` under `parent`.
///
/// On success the arena gained an `Objective` node, as a child of `parent`,
/// at what was the end of the arena, and its first child is a keyword leaf.
pub fn objective(iterator: &mut TokenizerIterator, ast: &mut AST, parent: usize) -> (r: Result<
    (),
    ParseError,
>)
    requires
        old(iterator).wf(),
        old(ast).wf(),
        parent < old(ast).nodes@.len(),
    ensures
        final(iterator).wf(),
        final(iterator).chars() == old(iterator).chars(),
        final(iterator).measure() <= old(iterator).measure(),
        final(ast).wf(),
        extends(*final(ast), *old(ast)),
        final(ast).nodes@.len() > old(ast).nodes@.len(),
        final(ast).nodes@[old(ast).nodes@.len() as int].node_type == ASTNodeTypes::Objective,
        final(ast).nodes@[old(ast).nodes@.len() as int].parent == Some(parent),
        touches_only(*final(ast), *old(ast), parent as int),
        node_children(final(ast).nodes@[parent as int]) == node_children(
            old(ast).nodes@[parent as int],
        ).push(old(ast).nodes@.len() as usize),
        match r {
            Ok(_) => {
                let ob = old(ast).nodes@.len() as int;
                &&& final(ast).nodes@.len() > ob + 1
                &&& final(ast).nodes@[ob + 1].node_type == ASTNodeTypes::Token
                &&& final(ast).nodes@[ob + 1].parent == Some(ob as usize)
                &&& match final(ast).nodes@[ob + 1].data_index {
                    Some(d) => d < final(ast).data@.len() && final(ast).data@[d as int]@ is Fun,
                    None => false,
                }
            },
            Err(_) => true,
        },
        (match old(iterator).spec_next().0 {
            Some(tv) => tv != TokenV::Fun(kw_chars(Keyword::Min)) && tv != TokenV::Fun(
                kw_chars(Keyword::Max),
            ),
            None => true,
        }) ==> r is Err,
        (old(iterator).spec_next().0 is Some && second_token(*old(iterator)) != Some(
            TokenV::LParen('{'),
        )) ==> r is Err,
        r is Ok ==> accept_objective(cur_of(*old(iterator))) == Some(cur_of(*final(iterator))),
        r is Err ==> accept_objective(cur_of(*old(iterator))) is None,
        forall|i: int|
            old(ast).nodes@.len() <= i < final(ast).nodes@.len()
                ==> (#[trigger] final(ast).nodes@[i]).node_type != ASTNodeTypes::Program,
    decreases old(iterator).measure(), 5int,
{
    let ghost c0 = cur_of(*old(iterator));
    proof {
        assert(cur_peek(c0) == old(iterator).spec_next().0);
    }
    let objective_node = ast.insert_node(None, Some(parent), ASTNodeTypes::Objective);
    let ghost ast1 = *ast;
    let mut cmp: Vec<Token> = Vec::new();
    cmp.push(Token::Fun(String::from_str("min")));
    cmp.push(Token::Fun(String::from_str("max")));
    proof {
        reveal_strlit("min");
        reveal_strlit("max");
        assert(cmp@[0]@ == TokenV::Fun(kw_chars(Keyword::Min))) by {
            assert("min"@ =~= kw_chars(Keyword::Min));
        }
        assert(cmp@[1]@ == TokenV::Fun(kw_chars(Keyword::Max))) by {
            assert("max"@ =~= kw_chars(Keyword::Max));
        }
    }
    let keyword = match pull_and_compare_content(
        iterator,
        cmp.as_slice(),
        "expected objective 'min' or 'max'",
    ) {
        Err(e) => {
            proof {
                assert(accept_objective(c0) is None);
            }
            return Err(e);
        },
        Ok(t) => t,
    };
    proof {
        let i = choose|i: int| 0 <= i < cmp@.len() && (#[trigger] cmp@[i])@ == keyword@;
        assert(cmp@.len() == 2);
        assert(cmp@[0]@ is Fun);
        assert(cmp@[1]@ is Fun);
        assert(keyword@ is Fun);
        assert(keyword@ == TokenV::Fun(kw_chars(Keyword::Min)) || keyword@ == TokenV::Fun(
            kw_chars(Keyword::Max),
        ));
        assert(cur_of(*iterator) == cur_take(c0));
    }
    let ghost c1 = cur_of(*iterator);
    let ghost kw = keyword@;
    let ghost kwtok = keyword;
    ast.insert_node(Some(keyword), Some(objective_node), ASTNodeTypes::Token);
    let ghost ast2 = *ast;
    proof {
        assert(ast2.nodes@[objective_node as int + 1].node_type == ASTNodeTypes::Token);
        assert(ast2.data@ == ast1.data@.push(kwtok));
        match ast2.nodes@[objective_node as int + 1].data_index {
            Some(d) => {
                assert(ast2.data@[d as int] == kwtok);
                assert(ast2.data@[d as int]@ is Fun);
            },
            None => {
                assert(false);
            },
        }
        assert(iterator.spec_next().0 == second_token(*old(iterator)));
    }
    let mut cmp_open: Vec<Token> = Vec::new();
    cmp_open.push(Token::LParen('{'));
    proof {
        assert(cmp_open@[0]@ == TokenV::LParen('{'));
    }
    match pull_and_compare_content(iterator, cmp_open.as_slice(), "expected '{'") {
        Err(e) => {
            proof {
                assert(accept_objective(c0) is None);
            }
            return Err(e);
        },
        Ok(_) => {},
    }
    proof {
        assert(cur_of(*iterator) == cur_take(c1));
    }
    let ghost c2 = cur_of(*iterator);
    match ignore_eol(iterator, ast, objective_node) {
        Err(e) => {
            proof {
                assert(!cur_skip_eols(c2).0);
                assert(accept_objective(c0) is None);
            }
            return Err(e);
        },
        Ok(_) => {},
    }
    proof {
        assert(cur_of(*iterator) == cur_skip_eols(c2).1);
    }
    match expression(iterator, ast, objective_node) {
        Err(e) => {
            proof {
                assert(accept_objective(c0) is None);
            }
            return Err(e);
        },
        Ok(_) => {},
    }
    let ghost c3 = cur_of(*iterator);
    match ignore_eol(iterator, ast, objective_node) {
        Err(e) => {
            proof {
                assert(!cur_skip_eols(c3).0);
                assert(accept_objective(c0) is None);
            }
            return Err(e);
        },
        Ok(_) => {},
    }
    proof {
        assert(cur_of(*iterator) == cur_skip_eols(c3).1);
    }
    let ghost c4 = cur_of(*iterator);
    let mut cmp_close: Vec<Token> = Vec::new();
    cmp_close.push(Token::RParen('}'));
    proof {
        assert(cmp_close@[0]@ == TokenV::RParen('}'));
    }
    match pull_and_compare_content(iterator, cmp_close.as_slice(), "expected '}'") {
        Err(e) => {
            proof {
                assert(accept_objective(c0) is None);
            }
            return Err(e);
        },
        Ok(_) => {},
    }
    proof {
        assert(cur_of(*iterator) == cur_take(c4));
        assert(accept_objective(c0) == Some(cur_of(*iterator)));
    }
    proof {
        let ob = objective_node as int;
        assert(ast.nodes@[ob + 1].node_type == ast2.nodes@[ob + 1].node_type);
        assert(ast.nodes@[ob + 1].parent == ast2.nodes@[ob + 1].parent);
        assert(ast.nodes@[ob + 1].data_index == ast2.nodes@[ob + 1].data_index);
        match ast2.nodes@[ob + 1].data_index {
            Some(d) => {
                assert(ast.data@[d as int] == ast2.data@[d as int]);
                assert(ast.data@[d as int]@ is Fun);
            },
            None => {},
        }
    }
    Ok(())
}

/// Parse `"st" "{" EOL* Constraint+ "}"` under `parent`: at least one
/// constraint line is required.
///
/// On success the arena gained a `Constraints` node, as a child of `parent`,
/// at what was the end of the arena, and every child of that node is a
/// `Constraint` node.
pub fn constraints(iterator: &mut TokenizerIterator, ast: &mut AST, parent: usize) -> (r: Result<
    (),
    ParseError,
>)
    requires
        old(iterator).wf(),
        old(ast).wf(),
        parent < old(ast).nodes@.len(),
    ensures
        final(iterator).wf(),
        final(iterator).chars() == old(iterator).chars(),
        final(iterator).measure() <= old(iterator).measure(),
        final(ast).wf(),
        extends(*final(ast), *old(ast)),
        final(ast).nodes@.len() > old(ast).nodes@.len(),
        final(ast).nodes@[old(ast).nodes@.len() as int].node_type == ASTNodeTypes::Constraints,
        final(ast).nodes@[old(ast).nodes@.len() as int].parent == Some(parent),
        touches_only(*final(ast), *old(ast), parent as int),
        node_children(final(ast).nodes@[parent as int]) == node_children(
            old(ast).nodes@[parent as int],
        ).push(old(ast).nodes@.len() as usize),
        (match old(iterator).spec_next().0 {
            Some(tv) => tv != TokenV::Fun(kw_chars(Keyword::St)),
            None => true,
        }) ==> r is Err,
        (old(iterator).spec_next().0 is Some && second_token(*old(iterator)) != Some(
            TokenV::LParen('{'),
        )) ==> r is Err,
        r is Ok ==> accept_constraints(cur_of(*old(iterator))) == Some(cur_of(*final(iterator))),
        r is Err ==> accept_constraints(cur_of(*old(iterator))) is None,
        match r {
            Ok(_) => {
                let cs = old(ast).nodes@.len() as int;
                let fin = *final(ast);
                &&& node_children(fin.nodes@[cs]).len() >= 1
                &&& forall|k: int|
                    0 <= k < node_children(fin.nodes@[cs]).len()
                        ==> fin.nodes@[(#[trigger] node_children(fin.nodes@[cs])[k]) as int].node_type
                        == ASTNodeTypes::Constraint && constraint_shape(
                        fin,
                        node_children(fin.nodes@[cs])[k] as int,
                    )
            },
            Err(_) => true,
        },
        forall|i: int|
            old(ast).nodes@.len() <= i < final(ast).nodes@.len()
                ==> (#[trigger] final(ast).nodes@[i]).node_type != ASTNodeTypes::Program,
    decreases old(iterator).measure(), 5int,
{
    let ghost c0 = cur_of(*old(iterator));
    proof {
        assert(cur_peek(c0) == old(iterator).spec_next().0);
    }
    let constraints_node = ast.insert_node(None, Some(parent), ASTNodeTypes::Constraints);
    let ghost cs = constraints_node as int;
    proof {
        assert(node_children(ast.nodes@[cs]) =~= Seq::<usize>::empty());
    }
    let mut cmp_st: Vec<Token> = Vec::new();
    cmp_st.push(Token::Fun(String::from_str("st")));
    proof {
        reveal_strlit("st");
        assert(cmp_st@[0]@ == TokenV::Fun(kw_chars(Keyword::St))) by {
            assert("st"@ =~= kw_chars(Keyword::St));
        }
    }
    match pull_and_compare_content(iterator, cmp_st.as_slice(), "expected constraints 'st'") {
        Err(e) => {
            proof {
                assert(accept_constraints(c0) is None);
            }
            return Err(e);
        },
        Ok(_) => {},
    }
    proof {
        assert(iterator.spec_next().0 == second_token(*old(iterator)));
        assert(cur_of(*iterator) == cur_take(c0));
    }
    let ghost c1 = cur_of(*iterator);
    let mut cmp_open: Vec<Token> = Vec::new();
    cmp_open.push(Token::LParen('{'));
    proof {
        assert(cmp_open@[0]@ == TokenV::LParen('{'));
    }
    match pull_and_compare_content(iterator, cmp_open.as_slice(), "expected '{'") {
        Err(e) => {
            proof {
                assert(accept_constraints(c0) is None);
            }
            return Err(e);
        },
        Ok(_) => {},
    }
    proof {
        assert(cur_of(*iterator) == cur_take(c1));
    }
    let ghost c2 = cur_of(*iterator);
    match ignore_eol(iterator, ast, constraints_node) {
        Err(e) => {
            proof {
                assert(!cur_skip_eols(c2).0);
                assert(accept_constraints(c0) is None);
            }
            return Err(e);
        },
        Ok(_) => {},
    }
    proof {
        assert(cur_of(*iterator) == cur_skip_eols(c2).1);
    }
    let ghost ce = cur_of(*iterator);
    let ghost pre_kids = node_children(ast.nodes@[cs]);
    proof {
        assert(pre_kids =~= Seq::<usize>::empty());
    }
    match constraint(iterator, ast, constraints_node) {
        Err(e) => {
            proof {
                assert(accept_constraints(c0) is None);
            }
            return Err(e);
        },
        Ok(_) => {},
    }
    let has_one = match &ast.nodes[constraints_node].children {
        Some(v) => v.len() > 0,
        None => false,
    };
    if !has_one {
        proof {
            assert(cur_peek(ce) == Some(TokenV::RParen('}')));
            assert(accept_constraints(c0) is None);
        }
        let got = iterator.peek();
        let err = iterator.raise_parsing_error("expected an constraint", got);
        return Err(err);
    }
    proof {
        assert(cur_peek(ce) != Some(TokenV::RParen('}')));
        assert(accept_constraints(c0) == (match accept_constraint(ce) {
            None => None,
            Some(c3) => {
                let sk2 = cur_skip_eols(c3);
                if sk2.0 && cur_peek(sk2.1) == Some(TokenV::RParen('}')) {
                    Some(cur_take(sk2.1))
                } else {
                    None
                }
            },
        }));
    }
    let ghost c3 = cur_of(*iterator);
    match ignore_eol(iterator, ast, constraints_node) {
        Err(e) => {
            proof {
                assert(!cur_skip_eols(c3).0);
                assert(accept_constraints(c0) is None);
            }
            return Err(e);
        },
        Ok(_) => {},
    }
    proof {
        assert(cur_of(*iterator) == cur_skip_eols(c3).1);
    }
    let ghost c4 = cur_of(*iterator);
    let mut cmp_close: Vec<Token> = Vec::new();
    cmp_close.push(Token::RParen('}'));
    proof {
        assert(cmp_close@[0]@ == TokenV::RParen('}'));
    }
    match pull_and_compare_content(iterator, cmp_close.as_slice(), "expected '}'") {
        Err(e) => {
            proof {
                assert(accept_constraints(c0) is None);
            }
            return Err(e);
        },
        Ok(_) => {},
    }
    proof {
        assert(cur_of(*iterator) == cur_take(c4));
        assert(accept_constraints(c0) == Some(cur_of(*iterator)));
    }
    Ok(())
}

/// Parse the remaining constraint lines under `parent`, stopping before
/// `}`; the enclosing rule checks that at least one line was parsed.
///
/// Each constraint inserts one `Constraint` child of `parent` followed by its
/// expression, comparator leaf and `RHS` leaf; on success every child the
/// parent gained is a well-shaped `Constraint` node.
#[verifier::rlimit(80)]
pub fn constraint(iterator: &mut TokenizerIterator, ast: &mut AST, parent: usize) -> (r: Result<
    (),
    ParseError,
>)
    requires
        old(iterator).wf(),
        old(ast).wf(),
        parent < old(ast).nodes@.len(),
    ensures
        final(iterator).wf(),
        final(iterator).chars() == old(iterator).chars(),
        final(iterator).measure() <= old(iterator).measure(),
        final(ast).wf(),
        extends(*final(ast), *old(ast)),
        touches_only(*final(ast), *old(ast), parent as int),
        match r {
            Ok(_) => {
                let pre = node_children(old(ast).nodes@[parent as int]);
                let post = node_children(final(ast).nodes@[parent as int]);
                let fin = *final(ast);
                forall|k: int|
                    pre.len() <= k < post.len() ==> fin.nodes@[(#[trigger] post[k]) as int].node_type
                        == ASTNodeTypes::Constraint && constraint_shape(fin, post[k] as int)
            },
            Err(_) => true,
        },
        (old(iterator).spec_next().0 == Some(TokenV::RParen('}'))) ==> (r is Ok && *final(ast)
            == *old(ast) && final(iterator).spec_next().0 == old(iterator).spec_next().0),
        (match old(iterator).spec_next().0 {
            Some(tv) => !(tv is Cmp || tv is Num || tv is Variable || tv is ArithOp || tv
                == TokenV::LParen('[') || tv == TokenV::LParen('(') || tv == TokenV::RParen('}')),
            None => true,
        }) ==> r is Err,
        r is Ok ==> accept_constraint(cur_of(*old(iterator))) == Some(cur_of(*final(iterator))),
        r is Err ==> accept_constraint(cur_of(*old(iterator))) is None,
        (r is Ok && old(iterator).spec_next().0 != Some(TokenV::RParen('}'))) ==> node_children(
            final(ast).nodes@[parent as int],
        ).len() > node_children(old(ast).nodes@[parent as int]).len(),
        forall|i: int|
            old(ast).nodes@.len() <= i < final(ast).nodes@.len()
                ==> (#[trigger] final(ast).nodes@[i]).node_type != ASTNodeTypes::Program,
    decreases old(iterator).measure(), 4int,
{
    let ghost c0 = cur_of(*old(iterator));
    proof {
        assert(cur_peek(c0) == old(iterator).spec_next().0);
        assert(cur_measure(c0) == old(iterator).measure());
    }
    let peeked = iterator.peek();
    proof {
        assert(cur_of(*iterator) == cur_peeked(c0));
    }
    match peeked {
        Some(Token::RParen('}')) => {
            proof {
                assert(accept_constraint(c0) == Some(cur_peeked(c0)));
            }
            Ok(())
        },
        Some(Token::Cmp(_)) | Some(Token::Num(_)) | Some(Token::Variable(_, _))
            | Some(Token::ArithOp(_)) | Some(Token::LParen('[')) | Some(Token::LParen('(')) => {
            let constraint_node = ast.insert_node(None, Some(parent), ASTNodeTypes::Constraint);
            let ghost ast1 = *ast;
            let ghost cn = constraint_node as int;
            let e_idx = ast.nodes.len();
            match expression(iterator, ast, constraint_node) {
                Err(e) => {
                    proof {
                        assert(accept_constraint(c0) is None);
                    }
                    return Err(e);
                },
                Ok(_) => {},
            }
            let ghost cw1 = cur_of(*iterator);
            let ghost a2 = *ast;
            let mut cmp_list: Vec<Token> = Vec::new();
            cmp_list.push(Token::Cmp(CmpOperation::Eq));
            proof {
                assert(cmp_list@[0]@ is Cmp);
            }
            let cmp_tok = match pull_and_compare_token(
                iterator,
                cmp_list.as_slice(),
                "expected comparison operator",
            ) {
                Err(e) => {
                    proof {
                        assert(accept_constraint(c0) is None);
                    }
                    return Err(e);
                },
                Ok(t) => t,
            };
            proof {
                let i = choose|i: int|
                    0 <= i < cmp_list@.len() && token_kinds_match(
                        (#[trigger] cmp_list@[i])@,
                        cmp_tok@,
                    );
                assert(cmp_tok@ is Cmp);
                assert(cur_of(*iterator) == cur_take(cw1));
            }
            let ghost cmp_tok_v = cmp_tok@;
            let c_idx = ast.insert_node(Some(cmp_tok), Some(constraint_node), ASTNodeTypes::Token);
            let ghost a3 = *ast;
            let ghost cw2 = cur_of(*iterator);
            let mut num_list: Vec<Token> = Vec::new();
            num_list.push(Token::Num(Decimal { neg: false, mant: 0, scale: 0 }));
            proof {
                assert(num_list@[0]@ is Num);
            }
            let num_tok = match pull_and_compare_token(
                iterator,
                num_list.as_slice(),
                "expected number",
            ) {
                Err(e) => {
                    proof {
                        assert(accept_constraint(c0) is None);
                    }
                    return Err(e);
                },
                Ok(t) => t,
            };
            proof {
                let i = choose|i: int|
                    0 <= i < num_list@.len() && token_kinds_match(
                        (#[trigger] num_list@[i])@,
                        num_tok@,
                    );
                assert(num_tok@ is Num);
                assert(cur_of(*iterator) == cur_take(cw2));
            }
            let ghost num_tok_v = num_tok@;
            let rh_idx = ast.insert_node(Some(num_tok), Some(constraint_node), ASTNodeTypes::RHS);
            let ghost a4 = *ast;
            let ghost cw3 = cur_of(*iterator);
            let mut eol_list: Vec<Token> = Vec::new();
            eol_list.push(Token::EOL);
            proof {
                assert(eol_list@[0]@ is EOL);
            }
            match pull_and_compare_content(iterator, eol_list.as_slice(), "Expected line break") {
                Err(e) => {
                    proof {
                        assert(accept_constraint(c0) is None);
                    }
                    return Err(e);
                },
                Ok(_) => {},
            }
            let ghost cw4 = cur_of(*iterator);
            proof {
                assert(cw4 == cur_take(cw3));
                assert(cur_measure(cw4) == iterator.measure());
                assert(accept_constraint(c0) == accept_constraint(cw4));
            }
            let ghost mid = *ast;
            proof {
                let e = e_idx as int;
                let c = c_idx as int;
                let rh = rh_idx as int;
                assert(node_children(ast1.nodes@[cn]) =~= Seq::<usize>::empty());
                assert(e_idx == ast1.nodes@.len());
                assert(node_children(a2.nodes@[cn]) =~= Seq::<usize>::empty().push(e_idx));
                assert(node_children(a3.nodes@[cn]) =~= node_children(a2.nodes@[cn]).push(c_idx));
                assert(node_children(a4.nodes@[cn]) =~= node_children(a3.nodes@[cn]).push(rh_idx));
                assert(node_children(a4.nodes@[cn]) =~= seq![e_idx, c_idx, rh_idx]);
                assert(a4.nodes@[e].node_type == ASTNodeTypes::Expression);
                assert(a4.nodes@[c].node_type == ASTNodeTypes::Token);
                assert(a4.nodes@[rh].node_type == ASTNodeTypes::RHS);
                match a4.nodes@[c].data_index {
                    Some(d) => {
                        assert(a4.data@[d as int]@ == cmp_tok_v);
                    },
                    None => {
                        assert(false);
                    },
                }
                match a4.nodes@[rh].data_index {
                    Some(d) => {
                        assert(a4.data@[d as int]@ == num_tok_v);
                    },
                    None => {
                        assert(false);
                    },
                }
                assert(constraint_shape(mid, cn));
            }
            let res = constraint(iterator, ast, parent);
            proof {
                let pre = node_children(old(ast).nodes@[parent as int]);
                let mid_k = node_children(mid.nodes@[parent as int]);
                let post = node_children(final(ast).nodes@[parent as int]);
                assert(mid_k == pre.push(constraint_node));
                assert(post.len() >= mid_k.len());
                if res is Ok {
                    assert(accept_constraint(c0) == Some(cur_of(*iterator)));
                } else {
                    assert(accept_constraint(c0) is None);
                }
                if res is Ok {
                    assert forall|k: int|
                        pre.len() <= k < post.len() implies final(ast).nodes@[(#[trigger] post[k]) as int].node_type
                        == ASTNodeTypes::Constraint && constraint_shape(
                        *final(ast),
                        post[k] as int,
                    ) by {
                        if k < mid_k.len() {
                            assert(post[k] == mid_k[k]);
                            assert(k == pre.len());
                            assert(mid_k[k] == constraint_node);
                            assert(mid.nodes@[constraint_node as int].node_type
                                == ASTNodeTypes::Constraint);
                            assert(node_children(final(ast).nodes@[constraint_node as int])
                                == node_children(mid.nodes@[constraint_node as int]));
                            lemma_constraint_shape_preserved(
                                *final(ast),
                                mid,
                                constraint_node as int,
                            );
                        }
                    }
                }
            }
            res
        },
        Some(t) => {
            proof {
                assert(accept_constraint(c0) is None);
            }
            let err = iterator.raise_parsing_error("expected an constraint", Some(t));
            Err(err)
        },
        None => {
            proof {
                assert(accept_constraint(c0) is None);
            }
            let err = iterator.raise_parsing_error("expected an constraint", None);
            Err(err)
        },
    }
}

/// Parse one expression under `parent`: a chain of terms and operators.
///
/// On success the arena gained an `Expression` node, as a child of `parent`,
/// at what was the end of the arena.
pub fn expression(iterator: &mut TokenizerIterator, ast: &mut AST, parent: usize) -> (r: Result<
    (),
    ParseError,
>)
    requires
        old(iterator).wf(),
        old(ast).wf(),
        parent < old(ast).nodes@.len(),
    ensures
        final(iterator).wf(),
        final(iterator).chars() == old(iterator).chars(),
        final(iterator).measure() <= old(iterator).measure(),
        final(ast).wf(),
        extends(*final(ast), *old(ast)),
        final(ast).nodes@.len() > old(ast).nodes@.len(),
        final(ast).nodes@[old(ast).nodes@.len() as int].node_type == ASTNodeTypes::Expression,
        final(ast).nodes@[old(ast).nodes@.len() as int].parent == Some(parent),
        touches_only(*final(ast), *old(ast), parent as int),
        node_children(final(ast).nodes@[parent as int]) == node_children(
            old(ast).nodes@[parent as int],
        ).push(old(ast).nodes@.len() as usize),
        (match old(iterator).spec_next().0 {
            Some(tv) => stops_expression(tv),
            None => false,
        }) ==> (r is Ok && final(iterator).spec_next().0 == old(iterator).spec_next().0
            && node_children(final(ast).nodes@[old(ast).nodes@.len() as int]) == Seq::<
            usize,
        >::empty()),
        (match old(iterator).spec_next().0 {
            Some(tv) => !(is_additive(tv) || stops_expression(tv) || starts_term(tv)
                || is_multiplicative(tv)),
            None => true,
        }) ==> r is Err,
        r is Ok ==> accept_expression(cur_of(*old(iterator))) == Some(cur_of(*final(iterator))),
        r is Err ==> accept_expression(cur_of(*old(iterator))) is None,
        forall|i: int|
            old(ast).nodes@.len() <= i < final(ast).nodes@.len()
                ==> (#[trigger] final(ast).nodes@[i]).node_type != ASTNodeTypes::Program,
    decreases old(iterator).measure(), 3int,
{
    let ghost c0 = cur_of(*old(iterator));
    proof {
        assert(cur_measure(c0) == old(iterator).measure());
    }
    let expression_node = ast.insert_node(None, Some(parent), ASTNodeTypes::Expression);
    match expression_point(iterator, ast, expression_node) {
        Err(e) => {
            proof {
                assert(accept_expression(c0) is None);
            }
            return Err(e);
        },
        Ok(_) => {},
    }
    let ghost c1 = cur_of(*iterator);
    proof {
        assert(cur_measure(c1) == iterator.measure());
        assert(accept_expression(c0) == accept_line(c1));
    }
    match expression_line(iterator, ast, expression_node) {
        Err(e) => {
            proof {
                assert(accept_expression(c0) is None);
            }
            return Err(e);
        },
        Ok(_) => {},
    }
    proof {
        assert(accept_expression(c0) == Some(cur_of(*iterator)));
    }
    Ok(())
}

/// Parse a run of terms bound by `*`/`/` under `parent`; stops before an
/// additive operator, a closing bracket or a comparator.
pub fn expression_point(
    iterator: &mut TokenizerIterator,
    ast: &mut AST,
    parent: usize,
) -> (r: Result<(), ParseError>)
    requires
        old(iterator).wf(),
        old(ast).wf(),
        parent < old(ast).nodes@.len(),
    ensures
        final(iterator).wf(),
        final(iterator).chars() == old(iterator).chars(),
        final(iterator).measure() <= old(iterator).measure(),
        final(ast).wf(),
        extends(*final(ast), *old(ast)),
        touches_only(*final(ast), *old(ast), parent as int),
        (match old(iterator).spec_next().0 {
            Some(tv) => is_additive(tv) || stops_expression(tv),
            None => false,
        }) ==> (r is Ok && *final(ast) == *old(ast) && final(iterator).spec_next().0 == old(
            iterator,
        ).spec_next().0),
        (match old(iterator).spec_next().0 {
            Some(tv) => !(is_additive(tv) || stops_expression(tv) || starts_term(tv)
                || is_multiplicative(tv)),
            None => true,
        }) ==> r is Err,
        r is Ok ==> accept_point(cur_of(*old(iterator))) == Some(cur_of(*final(iterator))),
        r is Err ==> accept_point(cur_of(*old(iterator))) is None,
        forall|i: int|
            old(ast).nodes@.len() <= i < final(ast).nodes@.len()
                ==> (#[trigger] final(ast).nodes@[i]).node_type != ASTNodeTypes::Program,
    decreases old(iterator).measure(), 2int,
{
    let ghost c0 = cur_of(*old(iterator));
    proof {
        assert(cur_peek(c0) == old(iterator).spec_next().0);
        assert(cur_measure(c0) == old(iterator).measure());
    }
    let peeked = iterator.peek();
    proof {
        assert(cur_of(*iterator) == cur_peeked(c0));
    }
    match peeked {
        Some(Token::ArithOp(ArithOperation::Add)) | Some(Token::ArithOp(ArithOperation::Sub))
            | Some(Token::RParen(_)) | Some(Token::Cmp(_)) => {
            proof {
                assert(accept_point(c0) == Some(cur_peeked(c0)));
            }
            Ok(())
        },
        Some(Token::Variable(_, _)) | Some(Token::Num(_)) | Some(Token::LParen('(')) | Some(
            Token::LParen('['),
        ) => {
            let expression_node = ast.insert_node(None, Some(parent), ASTNodeTypes::Expression);
            match term(iterator, ast, expression_node) {
                Err(e) => {
                    proof {
                        assert(accept_point(c0) is None);
                    }
                    return Err(e);
                },
                Ok(_) => {},
            }
            let ghost c1 = cur_of(*iterator);
            proof {
                assert(cur_measure(c1) == iterator.measure());
                assert(accept_point(c0) == accept_point(c1));
            }
            expression_point(iterator, ast, expression_node)
        },
        Some(Token::ArithOp(ArithOperation::Mul)) | Some(Token::ArithOp(ArithOperation::Div)) => {
            let expression_node = ast.insert_node(None, Some(parent), ASTNodeTypes::Expression);
            let mut ops: Vec<Token> = Vec::new();
            ops.push(Token::ArithOp(ArithOperation::Mul));
            ops.push(Token::ArithOp(ArithOperation::Div));
            let op = match pull_and_compare_content(
                iterator,
                ops.as_slice(),
                "Expected Arithmetic Operation",
            ) {
                Err(e) => {
                    proof {
                        assert(ops@[0]@ == TokenV::ArithOp(ArithOperation::Mul));
                        assert(ops@[1]@ == TokenV::ArithOp(ArithOperation::Div));
                        assert(false);
                    }
                    return Err(e);
                },
                Ok(op) => op,
            };
            ast.insert_node(Some(op), Some(expression_node), ASTNodeTypes::Token);
            let ghost c1 = cur_of(*iterator);
            proof {
                assert(c1 == cur_take(c0));
                assert(cur_measure(c1) == iterator.measure());
                assert(accept_point(c0) == accept_point(c1));
            }
            expression_point(iterator, ast, expression_node)
        },
        Some(t) => {
            proof {
                assert(accept_point(c0) is None);
            }
            let err = iterator.raise_parsing_error("expected an expression", Some(t));
            Err(err)
        },
        None => {
            proof {
                assert(accept_point(c0) is None);
            }
            let err = iterator.raise_parsing_error("expected an expression", None);
            Err(err)
        },
    }
}

/// Parse the additive tail of an expression under `parent`: `+`/`-` followed
/// by a multiplicative run, repeated; stops before a closing bracket or a
/// comparator.
pub fn expression_line(
    iterator: &mut TokenizerIterator,
    ast: &mut AST,
    parent: usize,
) -> (r: Result<(), ParseError>)
    requires
        old(iterator).wf(),
        old(ast).wf(),
        parent < old(ast).nodes@.len(),
    ensures
        final(iterator).wf(),
        final(iterator).chars() == old(iterator).chars(),
        final(iterator).measure() <= old(iterator).measure(),
        final(ast).wf(),
        extends(*final(ast), *old(ast)),
        touches_only(*final(ast), *old(ast), parent as int),
        (match old(iterator).spec_next().0 {
            Some(tv) => stops_expression(tv),
            None => false,
        }) ==> (r is Ok && *final(ast) == *old(ast) && final(iterator).spec_next().0 == old(
            iterator,
        ).spec_next().0),
        (match old(iterator).spec_next().0 {
            Some(tv) => !(stops_expression(tv) || is_additive(tv)),
            None => true,
        }) ==> r is Err,
        r is Ok ==> accept_line(cur_of(*old(iterator))) == Some(cur_of(*final(iterator))),
        r is Err ==> accept_line(cur_of(*old(iterator))) is None,
        forall|i: int|
            old(ast).nodes@.len() <= i < final(ast).nodes@.len()
                ==> (#[trigger] final(ast).nodes@[i]).node_type != ASTNodeTypes::Program,
    decreases old(iterator).measure(), 2int,
{
    let ghost c0 = cur_of(*old(iterator));
    proof {
        assert(cur_peek(c0) == old(iterator).spec_next().0);
        assert(cur_measure(c0) == old(iterator).measure());
    }
    let peeked = iterator.peek();
    proof {
        assert(cur_of(*iterator) == cur_peeked(c0));
    }
    match peeked {
        Some(Token::RParen(_)) | Some(Token::Cmp(_)) => {
            proof {
                assert(accept_line(c0) == Some(cur_peeked(c0)));
            }
            Ok(())
        },
        Some(Token::ArithOp(ArithOperation::Sub)) | Some(Token::ArithOp(ArithOperation::Add)) => {
            let expression_node = ast.insert_node(None, Some(parent), ASTNodeTypes::Expression);
            let mut ops: Vec<Token> = Vec::new();
            ops.push(Token::ArithOp(ArithOperation::Add));
            ops.push(Token::ArithOp(ArithOperation::Sub));
            let op = match pull_and_compare_content(
                iterator,
                ops.as_slice(),
                "Expected Arithmetic Operation",
            ) {
                Err(e) => {
                    proof {
                        assert(ops@[0]@ == TokenV::ArithOp(ArithOperation::Add));
                        assert(ops@[1]@ == TokenV::ArithOp(ArithOperation::Sub));
                        assert(false);
                    }
                    return Err(e);
                },
                Ok(op) => op,
            };
            ast.insert_node(Some(op), Some(expression_node), ASTNodeTypes::Token);
            let ghost c1 = cur_of(*iterator);
            proof {
                assert(c1 == cur_take(c0));
                assert(cur_measure(c1) == iterator.measure());
            }
            match expression_point(iterator, ast, expression_node) {
                Err(e) => {
                    proof {
                        assert(accept_line(c0) is None);
                    }
                    return Err(e);
                },
                Ok(_) => {},
            }
            let ghost c2 = cur_of(*iterator);
            proof {
                assert(cur_measure(c2) == iterator.measure());
                assert(accept_line(c0) == accept_line(c2));
            }
            expression_line(iterator, ast, expression_node)
        },
        Some(t) => {
            proof {
                assert(accept_line(c0) is None);
            }
            let err = iterator.raise_parsing_error("expected an expression", Some(t));
            Err(err)
        },
        None => {
            proof {
                assert(accept_line(c0) is None);
            }
            let err = iterator.raise_parsing_error("expected an expression", None);
            Err(err)
        },
    }
}

/// Parse one term under `parent`: a variable, a number, or a bracketed
/// sub-expression.
///
/// On success the arena gained a `Term` node, as a child of `parent`, at what
/// was the end of the arena, and at least one token was consumed.
pub fn term(iterator: &mut TokenizerIterator, ast: &mut AST, parent: usize) -> (r: Result<
    (),
    ParseError,
>)
    requires
        old(iterator).wf(),
        old(ast).wf(),
        parent < old(ast).nodes@.len(),
    ensures
        final(iterator).wf(),
        final(iterator).chars() == old(iterator).chars(),
        final(iterator).measure() <= old(iterator).measure(),
        final(ast).wf(),
        extends(*final(ast), *old(ast)),
        touches_only(*final(ast), *old(ast), parent as int),
        match r {
            Ok(_) => {
                &&& final(iterator).measure() < old(iterator).measure()
                &&& final(ast).nodes@.len() > old(ast).nodes@.len()
                &&& final(ast).nodes@[old(ast).nodes@.len() as int].node_type == ASTNodeTypes::Term
                &&& final(ast).nodes@[old(ast).nodes@.len() as int].parent == Some(parent)
                &&& match old(iterator).spec_next().0 {
                    Some(tv) => tv is Variable || tv is Num || tv == TokenV::LParen('(')
                        || tv == TokenV::LParen('['),
                    None => false,
                }
            },
            Err(_) => true,
        },
        (match old(iterator).spec_next().0 {
            Some(tv) => tv is Variable || tv is Num,
            None => false,
        }) ==> ({
            let tn = old(ast).nodes@.len() as int;
            let fin = *final(ast);
            &&& r is Ok
            &&& node_children(fin.nodes@[tn]).len() == 1
            &&& fin.nodes@[node_children(fin.nodes@[tn])[0] as int].node_type
                == ASTNodeTypes::Token
            &&& match fin.nodes@[node_children(fin.nodes@[tn])[0] as int].data_index {
                Some(d) => d < fin.data@.len() && Some(fin.data@[d as int]@) == old(
                    iterator,
                ).spec_next().0,
                None => false,
            }
        }),
        r is Ok ==> accept_term(cur_of(*old(iterator))) == Some(cur_of(*final(iterator))),
        r is Err ==> accept_term(cur_of(*old(iterator))) is None,
        forall|i: int|
            old(ast).nodes@.len() <= i < final(ast).nodes@.len()
                ==> (#[trigger] final(ast).nodes@[i]).node_type != ASTNodeTypes::Program,
    decreases old(iterator).measure(), 1int,
{
    let ghost c0 = cur_of(*old(iterator));
    proof {
        assert(cur_peek(c0) == old(iterator).spec_next().0);
        assert(cur_measure(c0) == old(iterator).measure());
    }
    let term_node = ast.insert_node(None, Some(parent), ASTNodeTypes::Term);
    let ghost ast1 = *ast;
    let mut shapes: Vec<Token> = Vec::new();
    shapes.push(Token::Variable(String::from_str("*"), Decimal { neg: false, mant: 1, scale: 0 }));
    shapes.push(Token::Num(Decimal { neg: false, mant: 0, scale: 0 }));
    shapes.push(Token::LParen('('));
    shapes.push(Token::LParen('['));
    match pull_and_compare_token(iterator, shapes.as_slice(), "expected a term") {
        Ok(t) => {
            proof {
                assert(cur_of(*iterator) == cur_take(c0));
                assert(cur_measure(cur_take(c0)) == iterator.measure());
            }
            match t {
                Token::Variable(_, _) | Token::Num(_) => {
                    let ghost t_v = t@;
                    let leaf_idx = ast.insert_node(Some(t), Some(term_node), ASTNodeTypes::Token);
                    proof {
                        assert(node_children(ast1.nodes@[term_node as int]) =~= Seq::<
                            usize,
                        >::empty());
                        assert(node_children(ast.nodes@[term_node as int]) =~= Seq::<
                            usize,
                        >::empty().push(leaf_idx));
                        assert(ast.nodes@[leaf_idx as int].node_type == ASTNodeTypes::Token);
                        match ast.nodes@[leaf_idx as int].data_index {
                            Some(d) => {
                                assert(ast.data@[d as int]@ == t_v);
                            },
                            None => {
                                assert(false);
                            },
                        }
                        assert(accept_term(c0) == Some(cur_take(c0)));
                    }
                    Ok(())
                },
                Token::LParen('(') => {
                    match expression(iterator, ast, term_node) {
                        Err(e) => {
                            proof {
                                assert(accept_term(c0) is None);
                            }
                            return Err(e);
                        },
                        Ok(_) => {},
                    }
                    let ghost c2v = cur_of(*iterator);
                    let mut close: Vec<Token> = Vec::new();
                    close.push(Token::RParen(')'));
                    match pull_and_compare_content(iterator, close.as_slice(), "expected ')'") {
                        Err(e) => {
                            proof {
                                assert(close@[0]@ == TokenV::RParen(')'));
                                assert(accept_term(c0) is None);
                            }
                            return Err(e);
                        },
                        Ok(_) => {
                            proof {
                                assert(close@[0]@ == TokenV::RParen(')'));
                                assert(cur_of(*iterator) == cur_take(c2v));
                                assert(accept_term(c0) == Some(cur_of(*iterator)));
                            }
                        },
                    }
                    Ok(())
                },
                Token::LParen('[') => {
                    match expression(iterator, ast, term_node) {
                        Err(e) => {
                            proof {
                                assert(accept_term(c0) is None);
                            }
                            return Err(e);
                        },
                        Ok(_) => {},
                    }
                    let ghost c2v = cur_of(*iterator);
                    let mut close: Vec<Token> = Vec::new();
                    close.push(Token::RParen(']'));
                    match pull_and_compare_content(iterator, close.as_slice(), "expected ']'") {
                        Err(e) => {
                            proof {
                                assert(close@[0]@ == TokenV::RParen(']'));
                                assert(accept_term(c0) is None);
                            }
                            return Err(e);
                        },
                        Ok(_) => {
                            proof {
                                assert(close@[0]@ == TokenV::RParen(']'));
                                assert(cur_of(*iterator) == cur_take(c2v));
                                assert(accept_term(c0) == Some(cur_of(*iterator)));
                            }
                        },
                    }
                    Ok(())
                },
                _ => {
                    proof {
                        assert(t@ is LParen);
                        assert(accept_term(c0) is None);
                    }
                    let err = iterator.raise_parsing_error("expected a term", Some(t));
                    Err(err)
                },
            }
        },
        Err(e) => {
            proof {
                assert(shapes@[0]@ is Variable);
                assert(shapes@[1]@ is Num);
                assert(shapes@[2]@ is LParen);
                assert(accept_term(c0) is None);
            }
            Err(e)
        },
    }
}

/// Tokenize `input` and parse it into an arena syntax tree.
pub fn construct_ast(input: &str) -> (r: Result<AST, ParseError>)
    ensures
        match r {
            Ok(ast) => {
                &&& ast.wf()
                &&& ast.nodes@.len() > 0
                &&& ast.nodes@[0].node_type == ASTNodeTypes::Program
                &&& ast.nodes@[0].parent is None
                &&& forall|i: int|
                    0 < i < ast.nodes@.len() ==> (#[trigger] ast.nodes@[i]).node_type
                        != ASTNodeTypes::Program
                &&& exists|i: int|
                    0 <= i < ast.nodes@.len() && (#[trigger] ast.nodes@[i]).node_type
                        == ASTNodeTypes::Program
                &&& exists|cs: int|
                    0 <= cs < ast.nodes@.len() && (#[trigger] ast.nodes@[cs]).node_type
                        == ASTNodeTypes::Constraints && all_constraints_shaped(ast, cs)
            },
            Err(_) => true,
        },
        (match crate::tokenizer::spec_lex(
            input@,
            0,
            1,
            crate::tokenizer::init_machine(),
            Seq::empty(),
        ).0 {
            Some(tv) => !(tv is EOL) && tv != TokenV::Fun(kw_chars(Keyword::Max)) && tv
                != TokenV::Fun(kw_chars(Keyword::Min)),
            None => true,
        }) ==> r is Err,
        (r is Ok <==> accept_program(
            Cursor { chars: input@, pos: 0, line: 1, buf: None },
        ) is Some),
{
    let tokenizer = Tokenizer::new(input);
    let mut iterator = tokenizer.into_iter();
    proof {
        assert(cur_of(iterator) == Cursor { chars: input@, pos: 0, line: 1, buf: None });
    }
    let mut ast = AST::new();
    match program(&mut iterator, &mut ast) {
        Ok(_) => {
            proof {
                assert(ast.wf());
                assert(ast.nodes@[0].node_type == ASTNodeTypes::Program);
                assert(exists|i: int|
                    0 <= i < ast.nodes@.len() && (#[trigger] ast.nodes@[i]).node_type
                        == ASTNodeTypes::Program);
            }
            Ok(ast)
        },
        Err(e) => Err(e),
    }
}

} // verus!
