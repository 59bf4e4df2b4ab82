//! The tableau assembler.
//!
//! The symbol table becomes a dense matrix of `(#constraints + 1)` rows and
//! `(#keys + #constraints + 1)` columns: row `0` for the objective, rows
//! `1..` for the constraints in source order. Keys other than `RHS` take
//! columns `1, 2, ...` in first-seen order; `RHS` is pinned to the last
//! column; the columns in between stay zero, reserved for the slack
//! variables of a downstream pivot solver and named `sub_v_<col>`.
//!
//! The matrix itself is an `ndarray` array; what the library knows of it is
//! the cell map [`mat_cells`], which the trusted wrappers below maintain.

use vstd::prelude::*;

use crate::ast::AST;
use crate::symbols::{key_index, lemma_key_index, rhs_key, Symbol, SymbolTable, TableV};
use crate::token_automata::push_char;
use crate::tokens::Decimal;

verus! {

/// The dense coefficient matrix, held as an `ndarray` array. Verus sees
/// nothing of the array itself; everything the library knows of it is said
/// through [`mat_cells`] by the trusted wrappers below.
#[verifier::external_body]
#[derive(Debug)]
pub struct Tableau {
    mat: ndarray::Array2<Decimal>,
}

/// The cells of the matrix: a map from `(row, column)` to the value held
/// there.
pub uninterp spec fn mat_cells(a: Tableau) -> Map<(int, int), Decimal>;

/// The zero decimal.
pub open spec fn zero_dec() -> Decimal {
    Decimal { neg: false, mant: 0, scale: 0 }
}

/// The all-`v` cell map of a `rows` by `cols` array.
pub open spec fn filled_cells(rows: int, cols: int, v: Decimal) -> Map<(int, int), Decimal> {
    Map::<(int, int), Decimal>::new(|p: (int, int)| 0 <= p.0 < rows && 0 <= p.1 < cols, |p: (int, int)| v)
}

/// Relies on ndarray's Array2::from_elem: a `rows` by `cols` array holding
/// copies of `v` in every cell. ndarray refuses a shape whose element count
/// exceeds `isize::MAX`, so such a shape is excluded here.
#[verifier::external_body]
fn mat_filled(rows: usize, cols: usize, v: Decimal) -> (a: Tableau)
    requires
        (rows as int) * (cols as int) <= isize::MAX as int,
    ensures
        mat_cells(a) == filled_cells(rows as int, cols as int, v),
{
    Tableau { mat: ndarray::Array2::from_elem((rows, cols), v) }
}

/// Relies on ndarray's IndexMut for `[usize; 2]`: writes one cell in place.
#[verifier::external_body]
fn mat_set(a: &mut Tableau, r: usize, c: usize, v: Decimal)
    requires
        mat_cells(*old(a)).dom().contains((r as int, c as int)),
    ensures
        mat_cells(*final(a)) == mat_cells(*old(a)).insert((r as int, c as int), v),
{
    a.mat[[r, c]] = v;
}

/// Relies on ndarray's Index for `[usize; 2]`: reads one cell.
#[verifier::external_body]
fn mat_get(a: &Tableau, r: usize, c: usize) -> (v: Decimal)
    requires
        mat_cells(*a).dom().contains((r as int, c as int)),
    ensures
        v == mat_cells(*a)[(r as int, c as int)],
{
    a.mat[[r, c]]
}

/// The decimal digits of `n`, most significant first.
pub open spec fn spec_digits(n: int) -> Seq<char>
    decreases n,
{
    if n < 10 {
        seq![digit_char(n)]
    } else {
        spec_digits(n / 10).push(digit_char(n % 10))
    }
}

/// The character for one decimal digit.
pub open spec fn digit_char(d: int) -> char {
    if d == 0 {
        '0'
    } else if d == 1 {
        '1'
    } else if d == 2 {
        '2'
    } else if d == 3 {
        '3'
    } else if d == 4 {
        '4'
    } else if d == 5 {
        '5'
    } else if d == 6 {
        '6'
    } else if d == 7 {
        '7'
    } else if d == 8 {
        '8'
    } else {
        '9'
    }
}

fn digit_char_of(d: usize) -> (r: char)
    requires
        d < 10,
    ensures
        r == digit_char(d as int),
{
    match d {
        0 => '0',
        1 => '1',
        2 => '2',
        3 => '3',
        4 => '4',
        5 => '5',
        6 => '6',
        7 => '7',
        8 => '8',
        _ => '9',
    }
}

/// Append the decimal digits of `n` to `s`.
fn push_digits(s: &mut String, n: usize)
    ensures
        final(s)@ == old(s)@ + spec_digits(n as int),
    decreases n,
{
    if n >= 10 {
        push_digits(s, n / 10);
    }
    let d = digit_char_of(n % 10);
    push_char(s, d);
    proof {
        if n < 10 {
            assert(old(s)@ + spec_digits(n as int) =~= old(s)@.push(digit_char(n as int)));
        } else {
            assert(old(s)@ + spec_digits(n as int) =~= (old(s)@ + spec_digits(n as int / 10)).push(
                digit_char(n as int % 10),
            ));
        }
    }
}

/// The reserved name of slack column `i`: `sub_v_` followed by the digits.
pub open spec fn sub_v_name(i: int) -> Seq<char> {
    seq!['s', 'u', 'b', '_', 'v', '_'] + spec_digits(i)
}

/// Build the reserved name of slack column `i`.
fn make_sub_v_name(i: usize) -> (r: String)
    ensures
        r@ == sub_v_name(i as int),
{
    let mut s = String::from_str("sub_v_");
    proof {
        reveal_strlit("sub_v_");
        assert(s@ =~= seq!['s', 'u', 'b', '_', 'v', '_']);
    }
    push_digits(&mut s, i);
    s
}

/// Write the contributions of one key into column `col`: the objective row
/// for an objective entry, row `r + 1` for a constraint or right-hand-side
/// entry of row `r`. A row beyond the matrix is left unwritten.
pub open spec fn write_syms(
    cells: Map<(int, int), Decimal>,
    syms: Seq<Symbol>,
    n: int,
    col: int,
    rows: int,
) -> Map<(int, int), Decimal>
    decreases syms.len() - n,
{
    if n < 0 || n >= syms.len() {
        cells
    } else {
        let cells2 = match syms[n] {
            Symbol::Obj(v) => cells.insert((0, col), v),
            Symbol::Constr(r, v) => if r + 1 < rows {
                cells.insert((r + 1, col), v)
            } else {
                cells
            },
            Symbol::RHS(r, v) => if r + 1 < rows {
                cells.insert((r + 1, col), v)
            } else {
                cells
            },
        };
        write_syms(cells2, syms, n + 1, col, rows)
    }
}

/// Assign columns to the keys from position `i` on, writing each key's
/// contributions: `RHS` goes to the last column, a known key to its column,
/// a new key to the next free column.
pub open spec fn assign_cols(
    t: TableV,
    i: int,
    free: int,
    max_col: int,
    cmap: Seq<(Seq<char>, int)>,
    cells: Map<(int, int), Decimal>,
    rows: int,
) -> (Seq<(Seq<char>, int)>, Map<(int, int), Decimal>, int)
    decreases t.len() - i,
{
    if i < 0 || i >= t.len() {
        (cmap, cells, free)
    } else {
        let key = t[i].0;
        let syms = t[i].1;
        let ki = key_index(cmap, key);
        if key == rhs_key() {
            let cells2 = write_syms(cells, syms, 0, max_col, rows);
            assign_cols(t, i + 1, free, max_col, cmap, cells2, rows)
        } else if ki >= 0 {
            let cells2 = write_syms(cells, syms, 0, cmap[ki].1, rows);
            assign_cols(t, i + 1, free, max_col, cmap, cells2, rows)
        } else {
            let cells2 = write_syms(cells, syms, 0, free, rows);
            assign_cols(t, i + 1, free + 1, max_col, cmap.push((key, free)), cells2, rows)
        }
    }
}

/// Add the reserved slack-column names from column `i` up to `max_col`.
pub open spec fn fill_subs(cmap: Seq<(Seq<char>, int)>, i: int, max_col: int) -> Seq<
    (Seq<char>, int),
>
    decreases max_col - i,
{
    if i >= max_col {
        cmap
    } else {
        fill_subs(cmap.push((sub_v_name(i), i)), i + 1, max_col)
    }
}

/// The fully assembled tableau of a symbol table: cells and column map.
pub open spec fn spec_tableau(t: TableV, nc: int) -> (
    Seq<(Seq<char>, int)>,
    Map<(int, int), Decimal>,
) {
    let rows = nc + 1;
    let cols = t.len() + nc + 1;
    let max_col = t.len() + nc;
    let base = filled_cells(rows, cols, zero_dec());
    let assigned = assign_cols(t, 0, 1, max_col, Seq::empty(), base, rows);
    (fill_subs(assigned.0, assigned.2, max_col), assigned.1)
}

/// The column already assigned to `key`, if any.
#[verifier::loop_isolation(false)]
fn col_lookup(symbol_col: &Vec<(String, usize)>, key: &String) -> (r: Option<usize>)
    ensures
        match r {
            Some(c) => key_index(cols_of(symbol_col@), key@) >= 0 && c as int == cols_of(
                symbol_col@,
            )[key_index(cols_of(symbol_col@), key@)].1,
            None => key_index(cols_of(symbol_col@), key@) == -1,
        },
{
    let ghost t = cols_of(symbol_col@);
    proof {
        lemma_key_index(t, key@);
    }
    let mut i: usize = 0;
    while i < symbol_col.len()
        invariant
            i <= symbol_col@.len(),
            t == cols_of(symbol_col@),
            forall|j: int| 0 <= j < i ==> (#[trigger] t[j]).0 != key@,
        decreases symbol_col@.len() - i,
    {
        if symbol_col[i].0.eq(key) {
            proof {
                assert(t[i as int].0 == key@);
                lemma_key_index(t, key@);
                if key_index(t, key@) == -1 {
                    assert(t[i as int].0 != key@);
                    assert(false);
                } else if key_index(t, key@) < i as int {
                    assert(t[key_index(t, key@)].0 == key@);
                    assert(false);
                } else if key_index(t, key@) > i as int {
                    assert(t[i as int].0 != key@);
                    assert(false);
                }
            }
            return Some(symbol_col[i].1);
        }
        i = i + 1;
    }
    proof {
        if key_index(t, key@) >= 0 {
            assert(t[key_index(t, key@)].0 == key@);
        }
    }
    None
}

/// Why a tableau cannot be assembled: the arena lacks the objective or the
/// constraints subtree.
#[derive(Debug, Clone, Copy, PartialEq, Eq, Structural)]
pub enum SemanticError {
    MissingObjective,
    MissingConstraints,
}

/// The dense tableau and its column-name map.
#[derive(Debug)]
pub struct Simplex {
    pub tableau: Tableau,
    pub symbol_col: Vec<(String, usize)>,
    pub n_rows: usize,
    pub n_cols: usize,
}

impl Simplex {
    /// The mathematical value of the column map.
    pub open spec fn cols_view(self) -> Seq<(Seq<char>, int)> {
        self.symbol_col@.map_values(|e: (String, usize)| (e.0@, e.1 as int))
    }

    /// The recorded size matches the matrix.
    pub open spec fn inv(self) -> bool {
        mat_cells(self.tableau).dom() == filled_cells(
            self.n_rows as int,
            self.n_cols as int,
            zero_dec(),
        ).dom()
    }

    /// Assemble the tableau of a parsed program, exactly as [`spec_tableau`]
    /// of its symbol table says; fail when the objective or the constraints
    /// subtree is absent.
    #[verifier::loop_isolation(false)]
    pub fn from(ast: AST) -> (r: Result<Simplex, SemanticError>)
        requires
            ast.wf(),
            crate::symbols::first_of_type_from(ast, crate::ast::ASTNodeTypes::Objective, 0) is Some
                && crate::symbols::first_of_type_from(
                ast,
                crate::ast::ASTNodeTypes::Constraints,
                0,
            ) is Some ==> {
                &&& crate::symbols::spec_symbol_table(ast).len() + crate::symbols::spec_n_constr(
                    ast,
                ) + 1 <= usize::MAX
                &&& (crate::symbols::spec_n_constr(ast) + 1) * (crate::symbols::spec_symbol_table(
                    ast,
                ).len() + crate::symbols::spec_n_constr(ast) + 1) <= isize::MAX as int
            },
        ensures
            match r {
                Ok(s) => {
                    let t = crate::symbols::spec_symbol_table(ast);
                    let nc = crate::symbols::spec_n_constr(ast) as int;
                    &&& s.inv()
                    &&& s.n_rows == nc + 1
                    &&& s.n_cols == t.len() + nc + 1
                    &&& mat_cells(s.tableau) == spec_tableau(t, nc).1
                    &&& s.cols_view() == spec_tableau(t, nc).0
                },
                Err(SemanticError::MissingObjective) => crate::symbols::first_of_type_from(
                    ast,
                    crate::ast::ASTNodeTypes::Objective,
                    0,
                ) is None,
                Err(SemanticError::MissingConstraints) => crate::symbols::first_of_type_from(
                    ast,
                    crate::ast::ASTNodeTypes::Constraints,
                    0,
                ) is None,
            },
    {
        match ast.find_root(crate::ast::ASTNodeTypes::Objective) {
            Some(obj_idx) => {
                proof {
                    crate::symbols::lemma_first_of_type_range(
                        ast,
                        crate::ast::ASTNodeTypes::Objective,
                        0,
                        obj_idx as int,
                    );
                }
            },
            None => {
                proof {
                    crate::symbols::lemma_first_of_type_range(
                        ast,
                        crate::ast::ASTNodeTypes::Objective,
                        0,
                        ast.nodes@.len() as int,
                    );
                }
                return Err(SemanticError::MissingObjective);
            },
        }
        match ast.find_root(crate::ast::ASTNodeTypes::Constraints) {
            Some(con_idx) => {
                proof {
                    crate::symbols::lemma_first_of_type_range(
                        ast,
                        crate::ast::ASTNodeTypes::Constraints,
                        0,
                        con_idx as int,
                    );
                }
            },
            None => {
                proof {
                    crate::symbols::lemma_first_of_type_range(
                        ast,
                        crate::ast::ASTNodeTypes::Constraints,
                        0,
                        ast.nodes@.len() as int,
                    );
                }
                return Err(SemanticError::MissingConstraints);
            },
        }
        let symbols = SymbolTable::from(ast);
        let ghost t = symbols.entries();
        let n_symbols = symbols.table.len();
        let nc_usize = symbols.n_constr as usize;
        let rows = nc_usize + 1;
        let cols = n_symbols + nc_usize + 1;
        let max_col = n_symbols + nc_usize;
        proof {
            assert((rows as int) * (cols as int) <= isize::MAX as int) by (nonlinear_arith)
                requires
                    rows as int == crate::symbols::spec_n_constr(ast) + 1,
                    cols as int == crate::symbols::spec_symbol_table(ast).len()
                        + crate::symbols::spec_n_constr(ast) + 1,
                    (crate::symbols::spec_n_constr(ast) + 1) * (crate::symbols::spec_symbol_table(
                        ast,
                    ).len() + crate::symbols::spec_n_constr(ast) + 1) <= isize::MAX as int,
            ;
        }
        let mut tableau = mat_filled(rows, cols, Decimal { neg: false, mant: 0, scale: 0 });
        let mut symbol_col: Vec<(String, usize)> = Vec::new();
        let ghost base = filled_cells(rows as int, cols as int, zero_dec());
        let mut free_col: usize = 1;
        let mut i: usize = 0;
        proof {
            assert(cols_of(symbol_col@) =~= Seq::<(Seq<char>, int)>::empty());
        }
        while i < symbols.table.len()
            invariant
                i <= symbols.table@.len(),
                t == symbols.entries(),
                n_symbols == symbols.table@.len(),
                1 <= free_col,
                free_col <= 1 + i,
                forall|k: int|
                    0 <= k < cols_of(symbol_col@).len() ==> 1 <= (#[trigger] cols_of(
                        symbol_col@,
                    )[k]).1 < free_col,
                mat_cells(tableau).dom() == base.dom(),
                assign_cols(t, i as int, free_col as int, max_col as int, cols_of(symbol_col@), mat_cells(tableau), rows as int)
                    == assign_cols(t, 0, 1, max_col as int, Seq::empty(), base, rows as int),
            decreases symbols.table@.len() - i,
        {
            let ghost cmap = cols_of(symbol_col@);
            let key = &symbols.table[i].0;
            proof {
                assert(t[i as int].0 == key@);
                lemma_key_index(cmap, key@);
            }
            let rhs_name = String::from_str("RHS");
            proof {
                reveal_strlit("RHS");
                assert(rhs_name@ =~= rhs_key());
            }
            let mut insert_col: usize = free_col;
            if key.eq(&rhs_name) {
                insert_col = max_col;
                proof {
                    assert(key@ == rhs_key());
                }
            } else {
                match col_lookup(&symbol_col, key) {
                    Some(c) => {
                        insert_col = c;
                    },
                    None => {
                        symbol_col.push((key.clone(), insert_col));
                        free_col = free_col + 1;
                        proof {
                            assert(cols_of(symbol_col@) =~= cmap.push((key@, insert_col as int)));
                        }
                    },
                }
            }
            proof {
                assert(insert_col < cols);
            }
            // write this key's contributions into its column
            let syms = &symbols.table[i].1;
            proof {
                assert(t[i as int].1 == syms@);
            }
            let ghost cells0 = mat_cells(tableau);
            let mut n: usize = 0;
            while n < syms.len()
                invariant
                    n <= syms@.len(),
                    insert_col < cols,
                    mat_cells(tableau).dom() == base.dom(),
                    write_syms(mat_cells(tableau), syms@, n as int, insert_col as int, rows as int)
                        == write_syms(cells0, syms@, 0, insert_col as int, rows as int),
                decreases syms@.len() - n,
            {
                let s = syms[n];
                match s {
                    Symbol::Obj(v) => {
                        proof {
                            assert(base.dom().contains((0int, insert_col as int)));
                            assert(mat_cells(tableau).insert(
                                (0int, insert_col as int),
                                v,
                            ).dom() =~= base.dom());
                        }
                        mat_set(&mut tableau, 0, insert_col, v);
                    },
                    Symbol::Constr(row, v) => {
                        if (row as usize) < rows - 1 {
                            proof {
                                assert(base.dom().contains((row as int + 1, insert_col as int)));
                                assert(mat_cells(tableau).insert(
                                    (row as int + 1, insert_col as int),
                                    v,
                                ).dom() =~= base.dom());
                            }
                            mat_set(&mut tableau, row as usize + 1, insert_col, v);
                        }
                    },
                    Symbol::RHS(row, v) => {
                        if (row as usize) < rows - 1 {
                            proof {
                                assert(base.dom().contains((row as int + 1, insert_col as int)));
                                assert(mat_cells(tableau).insert(
                                    (row as int + 1, insert_col as int),
                                    v,
                                ).dom() =~= base.dom());
                            }
                            mat_set(&mut tableau, row as usize + 1, insert_col, v);
                        }
                    },
                }
                n = n + 1;
            }
            i = i + 1;
        }
        // reserved slack-column names between the variables and the last column
        let ghost assigned = assign_cols(t, 0, 1, max_col as int, Seq::empty(), base, rows as int);
        proof {
            assert(cols_of(symbol_col@) == assigned.0);
            assert(mat_cells(tableau) == assigned.1);
            assert(free_col as int == assigned.2);
        }
        let mut fill: usize = free_col;
        while fill < max_col
            invariant
                fill >= free_col,
                fill_subs(cols_of(symbol_col@), fill as int, max_col as int) == fill_subs(
                    assigned.0,
                    assigned.2,
                    max_col as int,
                ),
                mat_cells(tableau) == assigned.1,
                mat_cells(tableau).dom() == base.dom(),
            decreases max_col - fill,
        {
            let name = make_sub_v_name(fill);
            let ghost cmap = cols_of(symbol_col@);
            symbol_col.push((name, fill));
            proof {
                assert(cols_of(symbol_col@) =~= cmap.push((sub_v_name(fill as int), fill as int)));
            }
            fill = fill + 1;
        }
        Ok(
            Simplex {
                tableau,
                symbol_col,
                n_rows: rows,
                n_cols: cols,
            },
        )
    }

    /// The value of one cell, or `None` outside the matrix.
    pub fn value_at(&self, r: usize, c: usize) -> (v: Option<Decimal>)
        requires
            self.inv(),
        ensures
            match v {
                Some(d) => r < self.n_rows && c < self.n_cols && d == mat_cells(self.tableau)[
                    (r as int, c as int)
                ],
                None => r >= self.n_rows || c >= self.n_cols,
            },
    {
        if r < self.n_rows && c < self.n_cols {
            Some(mat_get(&self.tableau, r, c))
        } else {
            None
        }
    }

    /// The column assigned to `name`, if any.
    pub fn column_of(&self, name: &str) -> (r: Option<usize>)
        ensures
            match r {
                Some(c) => key_index(self.cols_view(), name@) >= 0 && c as int == self.cols_view()[
                    key_index(self.cols_view(), name@)
                ].1,
                None => key_index(self.cols_view(), name@) == -1,
            },
    {
        let key = String::from_str(name);
        let ghost t = self.cols_view();
        proof {
            lemma_key_index(t, name@);
        }
        let mut i: usize = 0;
        while i < self.symbol_col.len()
            invariant
                i <= self.symbol_col@.len(),
                t == self.cols_view(),
                key@ == name@,
                forall|j: int| 0 <= j < i ==> (#[trigger] t[j]).0 != name@,
            decreases self.symbol_col@.len() - i,
        {
            if self.symbol_col[i].0.eq(&key) {
                proof {
                    assert(t[i as int].0 == name@);
                    lemma_key_index(t, name@);
                    if key_index(t, name@) == -1 {
                        assert(t[i as int].0 != name@);
                        assert(false);
                    } else if key_index(t, name@) < i as int {
                        assert(t[key_index(t, name@)].0 == name@);
                        assert(false);
                    } else if key_index(t, name@) > i as int {
                        assert(t[i as int].0 != name@);
                        assert(false);
                    }
                }
                return Some(self.symbol_col[i].1);
            }
            i = i + 1;
        }
        proof {
            if key_index(t, name@) >= 0 {
                assert(t[key_index(t, name@)].0 == name@);
            }
        }
        None
    }
}

/// The view of the column map under construction.
pub open spec fn cols_of(v: Seq<(String, usize)>) -> Seq<(Seq<char>, int)> {
    v.map_values(|e: (String, usize)| (e.0@, e.1 as int))
}

} // verus!
