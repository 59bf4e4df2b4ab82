use simplex::ast::{ASTNodeTypes, AST};
use simplex::simplex::{SemanticError, Simplex};
use simplex::symbols::{Symbol, SymbolTable};
use simplex::syntax::construct_ast;
use simplex::tokens::Decimal;

fn dec(neg: bool, mant: u64, scale: u32) -> Decimal {
    Decimal { neg, mant, scale }
}

#[test]
fn test_symbol_table() {
    let input = "
max {x1 - x2 }
st {
    -1.21x1 >= 1000
    x2 >= 1000
}
";
    let ast = construct_ast(input);
    assert!(ast.is_ok());
    let ast = ast.unwrap();
    let t = SymbolTable::from(ast);
    assert_eq!(t.len(), 3);
    assert_eq!(
        *t.get("x1").unwrap(),
        vec![Symbol::Obj(dec(false, 1, 0)), Symbol::Constr(0, dec(true, 121, 2))]
    );
    assert_eq!(
        *t.get("x2").unwrap(),
        vec![Symbol::Obj(dec(true, 1, 0)), Symbol::Constr(1, dec(false, 1, 0))]
    );
    assert_eq!(
        *t.get("RHS").unwrap(),
        vec![Symbol::RHS(0, dec(false, 1000, 0)), Symbol::RHS(1, dec(false, 1000, 0))]
    );
}

#[test]
fn test_symbol_table_2() {
    let input = "
max {1.2x1 - 3x2 + 202.1 / 2 + x3}
st {
    -1.21x1 - x2>= 1000
    x2 + -0.2x3 - y2 >= 100
    x1 - -120.1y3 >= -1.1
}
";
    let ast = construct_ast(input);
    assert!(ast.is_ok());
    let ast = ast.unwrap();
    let t = SymbolTable::from(ast);
    assert_eq!(
        *t.get("x1").unwrap(),
        vec![
            Symbol::Obj(dec(false, 12, 1)),
            Symbol::Constr(0, dec(true, 121, 2)),
            Symbol::Constr(2, dec(false, 1, 0)),
        ]
    );
    assert_eq!(
        *t.get("x2").unwrap(),
        vec![
            Symbol::Obj(dec(true, 3, 0)),
            Symbol::Constr(0, dec(true, 1, 0)),
            Symbol::Constr(1, dec(false, 1, 0)),
        ]
    );
    assert_eq!(
        *t.get("x3").unwrap(),
        vec![Symbol::Obj(dec(false, 1, 0)), Symbol::Constr(1, dec(true, 2, 1))]
    );
    assert_eq!(*t.get("y2").unwrap(), vec![Symbol::Constr(1, dec(true, 1, 0))]);
    assert_eq!(*t.get("y3").unwrap(), vec![Symbol::Constr(2, dec(false, 1201, 1))]);
    assert_eq!(
        *t.get("RHS").unwrap(),
        vec![
            Symbol::RHS(0, dec(false, 1000, 0)),
            Symbol::RHS(1, dec(false, 100, 0)),
            Symbol::RHS(2, dec(true, 11, 1)),
        ]
    );
}

#[test]
fn test_simplex() {
    let input = "
max {x1 - x2 }
st {
    -1.21x1 >= 1000
    x2 >= 1000
}
";
    let ast = construct_ast(input);
    assert!(ast.is_ok());
    let ast = ast.unwrap();
    let simplex = Simplex::from(ast).unwrap();
    // 3 keys and 2 constraints: 3 rows, 3 + 2 + 1 columns.
    assert_eq!(simplex.n_rows, 3);
    assert_eq!(simplex.n_cols, 6);
    // first-seen column order: x1 -> 1, x2 -> 2; RHS pinned to the last.
    assert_eq!(simplex.column_of("x1"), Some(1));
    assert_eq!(simplex.column_of("x2"), Some(2));
    assert_eq!(simplex.column_of("RHS"), None);
    assert_eq!(simplex.column_of("sub_v_3"), Some(3));
    assert_eq!(simplex.column_of("sub_v_4"), Some(4));
    // objective row.
    assert_eq!(simplex.value_at(0, 1), Some(dec(false, 1, 0)));
    assert_eq!(simplex.value_at(0, 2), Some(dec(true, 1, 0)));
    // constraint rows.
    assert_eq!(simplex.value_at(1, 1), Some(dec(true, 121, 2)));
    assert_eq!(simplex.value_at(2, 2), Some(dec(false, 1, 0)));
    // right-hand sides in the last column.
    assert_eq!(simplex.value_at(1, 5), Some(dec(false, 1000, 0)));
    assert_eq!(simplex.value_at(2, 5), Some(dec(false, 1000, 0)));
    // reserved slack columns stay zero.
    assert_eq!(simplex.value_at(0, 3), Some(dec(false, 0, 0)));
    assert_eq!(simplex.value_at(1, 4), Some(dec(false, 0, 0)));
    assert_eq!(simplex.value_at(2, 0), Some(dec(false, 0, 0)));
    // outside the matrix.
    assert_eq!(simplex.value_at(3, 0), None);
    assert_eq!(simplex.value_at(0, 6), None);
}

#[test]
fn test_missing_objective() {
    let mut ast = AST::new();
    ast.insert_node(None, None, ASTNodeTypes::Program);
    assert!(matches!(Simplex::from(ast), Err(SemanticError::MissingObjective)));
}

#[test]
fn test_missing_constraints() {
    let mut ast = AST::new();
    let root = ast.insert_node(None, None, ASTNodeTypes::Program);
    ast.insert_node(None, Some(root), ASTNodeTypes::Objective);
    assert!(matches!(Simplex::from(ast), Err(SemanticError::MissingConstraints)));
}

#[test]
fn test_nested_parens_signs() {
    // The running sign is the last additive operator seen in pre-order: the
    // minus reaches into the parentheses, and the plus inside resets it.
    let input = "
max {x1 - (x2 + x3)}
st {
    x1 >= 1
}
";
    let ast = construct_ast(input).unwrap();
    let t = SymbolTable::from(ast);
    assert_eq!(
        *t.get("x1").unwrap(),
        vec![Symbol::Obj(dec(false, 1, 0)), Symbol::Constr(0, dec(false, 1, 0))]
    );
    assert_eq!(*t.get("x2").unwrap(), vec![Symbol::Obj(dec(true, 1, 0))]);
    assert_eq!(*t.get("x3").unwrap(), vec![Symbol::Obj(dec(false, 1, 0))]);
    assert_eq!(*t.get("RHS").unwrap(), vec![Symbol::RHS(0, dec(false, 1, 0))]);
}

#[test]
fn test_bracketed_term() {
    let input = "
max {[x1 - x2] / 2}
st {
    x1 >= 1
}
";
    let ast = construct_ast(input).unwrap();
    let t = SymbolTable::from(ast);
    assert_eq!(
        *t.get("x1").unwrap(),
        vec![Symbol::Obj(dec(false, 1, 0)), Symbol::Constr(0, dec(false, 1, 0))]
    );
    assert_eq!(*t.get("x2").unwrap(), vec![Symbol::Obj(dec(true, 1, 0))]);
}

#[test]
fn test_empty_constraint_block_rejected() {
    // The grammar requires at least one constraint line.
    let input = "
max {1}
st {
}
";
    let err = construct_ast(input).unwrap_err();
    assert_eq!(err.expected, "expected an constraint".to_string());
}
