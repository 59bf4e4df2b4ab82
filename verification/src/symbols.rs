//! The symbol table: per-variable signed contributions.
//!
//! Two pre-order walks over the arena — one for the objective subtree, one
//! for the constraints subtree — thread a running sign that an additive
//! operator node flips for the remainder of its branch. Every variable leaf
//! appends a contribution under its name; every number directly under an
//! `RHS` node appends under the reserved name `RHS`. Contributions are never
//! merged here.
//!
//! The table is an association list in first-seen key order with unique
//! keys, so the column assignment of the tableau stage is deterministic.

use vstd::prelude::*;

use crate::ast::{node_children, ASTNodeTypes, AST};
use crate::tokens::{Decimal, Token, TokenV};

verus! {

/// One contribution of a variable: to the objective row, to a constraint
/// row, or a right-hand-side value.
#[derive(Debug, Clone, Copy, PartialEq, Eq, Structural)]
pub enum Symbol {
    /// Objective coefficient.
    Obj(Decimal),
    /// Constraint-row coefficient: `(row, coefficient)`.
    Constr(u32, Decimal),
    /// Right-hand-side value: `(row, value)`.
    RHS(u32, Decimal),
}

/// The reserved key for right-hand-side values.
pub open spec fn rhs_key() -> Seq<char> {
    seq!['R', 'H', 'S']
}

/// An association list from variable name to its contributions, in
/// first-seen key order, plus the number of constraint rows.
#[derive(Debug)]
pub struct SymbolTable {
    pub table: Vec<(String, Vec<Symbol>)>,
    pub n_constr: u32,
}

/// The mathematical shape of the table: keyed sequences in first-seen order.
pub type TableV = Seq<(Seq<char>, Seq<Symbol>)>;

/// The position of `k` in a keyed sequence, or `-1` when absent.
pub open spec fn key_index<T>(t: Seq<(Seq<char>, T)>, k: Seq<char>) -> int
    decreases t.len(),
{
    if t.len() == 0 {
        -1
    } else if t[0].0 == k {
        0
    } else {
        let r = key_index(t.drop_first(), k);
        if r < 0 {
            -1
        } else {
            r + 1
        }
    }
}

/// `key_index` finds the first entry with key `k`, and `-1` exactly when no
/// entry has it.
pub proof fn lemma_key_index<T>(t: Seq<(Seq<char>, T)>, k: Seq<char>)
    ensures
        key_index(t, k) == -1 ==> forall|j: int| 0 <= j < t.len() ==> (#[trigger] t[j]).0 != k,
        key_index(t, k) >= 0 ==> {
            &&& key_index(t, k) < t.len()
            &&& t[key_index(t, k)].0 == k
            &&& forall|j: int| 0 <= j < key_index(t, k) ==> (#[trigger] t[j]).0 != k
        },
    decreases t.len(),
{
    if t.len() > 0 && t[0].0 != k {
        lemma_key_index(t.drop_first(), k);
        let r = key_index(t.drop_first(), k);
        if r == -1 {
            assert forall|j: int| 0 <= j < t.len() implies (#[trigger] t[j]).0 != k by {
                if j > 0 {
                    assert(t.drop_first()[j - 1].0 != k);
                }
            }
        } else {
            assert forall|j: int| 0 <= j < key_index(t, k) implies (#[trigger] t[j]).0 != k by {
                if j > 0 {
                    assert(t.drop_first()[j - 1].0 != k);
                }
            }
        }
    }
}

/// Append symbol `s` under key `k`: to the existing entry, or as a new entry
/// at the end.
pub open spec fn table_add(t: TableV, k: Seq<char>, s: Symbol) -> TableV {
    let i = key_index(t, k);
    if i < 0 {
        t.push((k, seq![s]))
    } else {
        t.update(i, (t[i].0, t[i].1.push(s)))
    }
}

impl SymbolTable {
    /// The mathematical value of the table.
    pub open spec fn entries(self) -> TableV {
        self.table@.map_values(|e: (String, Vec<Symbol>)| (e.0@, e.1@))
    }

    /// Keys are pairwise distinct.
    pub open spec fn wf(self) -> bool {
        forall|i: int, j: int|
            0 <= i < j < self.entries().len() ==> (#[trigger] self.entries()[i]).0 != (
            #[trigger] self.entries()[j]).0
    }

    /// An empty table.
    pub fn new() -> (r: Self)
        ensures
            r.wf(),
            r.entries() =~= Seq::<(Seq<char>, Seq<Symbol>)>::empty(),
            r.n_constr == 0,
    {
        SymbolTable { table: Vec::new(), n_constr: 0 }
    }

    /// Append one contribution under `name`, exactly as [`table_add`] says.
    #[verifier::loop_isolation(false)]
    fn add_symbol(&mut self, name: &String, s: Symbol)
        requires
            old(self).wf(),
        ensures
            final(self).wf(),
            final(self).entries() == table_add(old(self).entries(), name@, s),
            final(self).n_constr == old(self).n_constr,
    {
        let ghost t0 = self.entries();
        proof {
            lemma_key_index(t0, name@);
        }
        let mut i: usize = 0;
        while i < self.table.len()
            invariant
                i <= self.table@.len(),
                *self == *old(self),
                forall|j: int| 0 <= j < i ==> (#[trigger] t0[j]).0 != name@,
            decreases self.table@.len() - i,
        {
            if self.table[i].0.eq(name) {
                proof {
                    assert(t0[i as int].0 == name@);
                    assert(key_index(t0, name@) == i as int) by {
                        lemma_key_index(t0, name@);
                        if key_index(t0, name@) == -1 {
                            assert(t0[i as int].0 != name@);
                        }
                    }
                }
                let entry = &mut self.table[i];
                entry.1.push(s);
                proof {
                    assert(final(self).entries() =~= table_add(t0, name@, s));
                }
                return ;
            }
            i = i + 1;
        }
        proof {
            lemma_key_index(t0, name@);
            assert(key_index(t0, name@) == -1) by {
                if key_index(t0, name@) >= 0 {
                    assert(t0[key_index(t0, name@)].0 == name@);
                }
            }
        }
        let mut symbols: Vec<Symbol> = Vec::new();
        symbols.push(s);
        self.table.push((name.clone(), symbols));
        proof {
            assert(final(self).entries() =~= table_add(t0, name@, s));
            let fin = *final(self);
            assert forall|a: int, b: int|
                0 <= a < b < fin.entries().len() implies (#[trigger] fin.entries()[a]).0 != (
            #[trigger] fin.entries()[b]).0 by {
                if b == t0.len() {
                    assert(t0[a].0 != name@);
                }
            }
        }
    }
}

/// The pre-order objective walk from `root`, threading the running sign.
///
/// A variable leaf appends its coefficient times the inherited sign; an
/// additive operator leaf sets the sign for the siblings that follow; other
/// leaves change nothing. An inner node folds the walk over its children.
pub open spec fn obj_walk(ast: AST, root: int, sign: i8, t: TableV) -> (i8, TableV)
    decreases ast.nodes@.len() - root, 1int, 0int,
{
    if root < 0 || root >= ast.nodes@.len() {
        (sign, t)
    } else {
        let n = ast.nodes@[root];
        match n.data_index {
            Some(d) => {
                let tok = ast.data@[d as int]@;
                match tok {
                    TokenV::Variable(name, coef) => {
                        let eff = if sign == -1 {
                            coef.spec_negated()
                        } else {
                            coef
                        };
                        (sign, table_add(t, name, Symbol::Obj(eff)))
                    },
                    TokenV::ArithOp(op) => {
                        match op {
                            crate::tokens::ArithOperation::Add => (1i8, t),
                            crate::tokens::ArithOperation::Sub => (-1i8, t),
                            _ => (sign, t),
                        }
                    },
                    _ => (sign, t),
                }
            },
            None => obj_walk_children(ast, root, node_children(n), 0, sign, t),
        }
    }
}

/// The fold of [`obj_walk`] over the children from position `j` on.
pub open spec fn obj_walk_children(
    ast: AST,
    root: int,
    kids: Seq<usize>,
    j: int,
    sign: i8,
    t: TableV,
) -> (i8, TableV)
    decreases ast.nodes@.len() - root, 0int, kids.len() - j,
{
    if j < 0 || j >= kids.len() {
        (sign, t)
    } else {
        let child = kids[j] as int;
        if child <= root || child >= ast.nodes@.len() {
            (sign, t)
        } else {
            let step = obj_walk(ast, child, sign, t);
            obj_walk_children(ast, root, kids, j + 1, step.0, step.1)
        }
    }
}

/// The pre-order constraint walk from `root` for constraint row `row`.
///
/// Like the objective walk, but a variable leaf appends a `(row,
/// coefficient)` contribution, and a number leaf directly under an `RHS`
/// node appends `(row, value)` under the reserved `RHS` key.
pub open spec fn constr_walk(ast: AST, root: int, row: u32, sign: i8, t: TableV) -> (i8, TableV)
    decreases ast.nodes@.len() - root, 1int, 0int,
{
    if root < 0 || root >= ast.nodes@.len() {
        (sign, t)
    } else {
        let n = ast.nodes@[root];
        let stepped = match n.data_index {
            Some(d) => {
                let tok = ast.data@[d as int]@;
                match tok {
                    TokenV::Variable(name, coef) => {
                        let eff = if sign == -1 {
                            coef.spec_negated()
                        } else {
                            coef
                        };
                        (sign, table_add(t, name, Symbol::Constr(row, eff)))
                    },
                    TokenV::Num(v) => {
                        if n.node_type == ASTNodeTypes::RHS {
                            (sign, table_add(t, rhs_key(), Symbol::RHS(row, v)))
                        } else {
                            (sign, t)
                        }
                    },
                    TokenV::ArithOp(op) => {
                        match op {
                            crate::tokens::ArithOperation::Add => (1i8, t),
                            crate::tokens::ArithOperation::Sub => (-1i8, t),
                            _ => (sign, t),
                        }
                    },
                    _ => (sign, t),
                }
            },
            None => (sign, t),
        };
        constr_walk_children(ast, root, node_children(n), 0, stepped.0, stepped.1, row)
    }
}

/// The fold of [`constr_walk`] over the children from position `j` on.
pub open spec fn constr_walk_children(
    ast: AST,
    root: int,
    kids: Seq<usize>,
    j: int,
    sign: i8,
    t: TableV,
    row: u32,
) -> (i8, TableV)
    decreases ast.nodes@.len() - root, 0int, kids.len() - j,
{
    if j < 0 || j >= kids.len() {
        (sign, t)
    } else {
        let child = kids[j] as int;
        if child <= root || child >= ast.nodes@.len() {
            (sign, t)
        } else {
            let step = constr_walk(ast, child, row, sign, t);
            constr_walk_children(ast, root, kids, j + 1, step.0, step.1, row)
        }
    }
}

/// The row index for the child at position `j`, stopping at the largest
/// representable row.
pub open spec fn row_of(j: int) -> u32 {
    if j <= u32::MAX {
        j as u32
    } else {
        u32::MAX
    }
}

/// The fold over the children of the constraints node: the child at
/// position `j` that is a `Constraint` node is walked with row `j`.
pub open spec fn constraints_walk(ast: AST, root: int, kids: Seq<usize>, j: int, t: TableV) -> TableV
    decreases kids.len() - j,
{
    if j < 0 || j >= kids.len() {
        t
    } else {
        let child = kids[j] as int;
        let t2 = if 0 <= child < ast.nodes@.len() && ast.nodes@[child].node_type
            == ASTNodeTypes::Constraint && child > root {
            constr_walk(ast, child, row_of(j), 1i8, t).1
        } else {
            t
        };
        constraints_walk(ast, root, kids, j + 1, t2)
    }
}

/// The first node of the given kind, scanning the arena from `i` on.
pub open spec fn first_of_type_from(ast: AST, ntype: ASTNodeTypes, i: int) -> Option<int>
    decreases ast.nodes@.len() - i,
{
    if i < 0 || i >= ast.nodes@.len() {
        None
    } else if ast.nodes@[i].node_type == ntype {
        Some(i)
    } else {
        first_of_type_from(ast, ntype, i + 1)
    }
}

/// Scanning can start anywhere inside a stretch without the wanted kind.
pub proof fn lemma_first_of_type_range(ast: AST, ntype: ASTNodeTypes, i: int, k: int)
    requires
        0 <= i <= k <= ast.nodes@.len(),
        forall|j: int| i <= j < k ==> ast.nodes@[j].node_type != ntype,
    ensures
        first_of_type_from(ast, ntype, i) == first_of_type_from(ast, ntype, k),
    decreases k - i,
{
    if i < k {
        lemma_first_of_type_range(ast, ntype, i + 1, k);
    }
}

/// The whole symbol table of a parsed program: the objective walk from the
/// first `Objective` node, then the constraint walks from the children of
/// the first `Constraints` node.
pub open spec fn spec_symbol_table(ast: AST) -> TableV {
    let t0 = Seq::<(Seq<char>, Seq<Symbol>)>::empty();
    let t1 = match first_of_type_from(ast, ASTNodeTypes::Objective, 0) {
        Some(i) => obj_walk(ast, i, 1i8, t0).1,
        None => t0,
    };
    match first_of_type_from(ast, ASTNodeTypes::Constraints, 0) {
        Some(i) => constraints_walk(ast, i, node_children(ast.nodes@[i]), 0, t1),
        None => t1,
    }
}

/// The number of constraint rows: how many children the first `Constraints`
/// node has, capped at the largest representable row count.
pub open spec fn spec_n_constr(ast: AST) -> u32 {
    match first_of_type_from(ast, ASTNodeTypes::Constraints, 0) {
        Some(i) => row_of(node_children(ast.nodes@[i]).len() as int),
        None => 0,
    }
}

impl SymbolTable {
    /// Walk the objective subtree, exactly as [`obj_walk`] says.
    #[verifier::loop_isolation(false)]
    fn collect_objective_symbols(&mut self, ast: &AST, root: usize, prev_sign: i8) -> (r: i8)
        requires
            old(self).wf(),
            ast.wf(),
            root < ast.nodes@.len(),
        ensures
            final(self).wf(),
            (r, final(self).entries()) == obj_walk(*ast, root as int, prev_sign, old(self).entries()),
            final(self).n_constr == old(self).n_constr,
        decreases ast.nodes@.len() - root,
    {
        let node = &ast.nodes[root];
        match &node.data_index {
            Some(d) => {
                proof {
                    assert(ast.wf_node(root as int));
                }
                let token = &ast.data[*d];
                match token {
                    Token::Variable(name, coef) => {
                        let eff = if prev_sign == -1 {
                            coef.negated()
                        } else {
                            *coef
                        };
                        self.add_symbol(name, Symbol::Obj(eff));
                        prev_sign
                    },
                    Token::ArithOp(op) => {
                        match op {
                            crate::tokens::ArithOperation::Add => 1,
                            crate::tokens::ArithOperation::Sub => -1,
                            _ => prev_sign,
                        }
                    },
                    _ => prev_sign,
                }
            },
            None => {
                let ghost kids = node_children(ast.nodes@[root as int]);
                let ghost t0 = self.entries();
                let mut sign: i8 = prev_sign;
                match &node.children {
                    Some(children) => {
                        let mut j: usize = 0;
                        while j < children.len()
                            invariant
                                j <= children@.len(),
                                self.wf(),
                                self.n_constr == old(self).n_constr,
                                obj_walk_children(*ast, root as int, kids, j as int, sign, self.entries())
                                    == obj_walk_children(*ast, root as int, kids, 0, prev_sign, t0),
                            decreases children@.len() - j,
                        {
                            let child = children[j];
                            proof {
                                assert(ast.wf_node(root as int));
                                assert(kids[j as int] == child);
                            }
                            sign = self.collect_objective_symbols(ast, child, sign);
                            j = j + 1;
                        }
                        sign
                    },
                    None => {
                        proof {
                            assert(kids =~= Seq::<usize>::empty());
                        }
                        sign
                    },
                }
            },
        }
    }

    /// Walk one constraint subtree with row `row`, exactly as
    /// [`constr_walk`] says.
    #[verifier::loop_isolation(false)]
    fn collect_constraint_symbol(&mut self, ast: &AST, root: usize, row: u32, prev_sign: i8) -> (r:
        i8)
        requires
            old(self).wf(),
            ast.wf(),
            root < ast.nodes@.len(),
        ensures
            final(self).wf(),
            (r, final(self).entries()) == constr_walk(*ast, root as int, row, prev_sign, old(self).entries()),
            final(self).n_constr == old(self).n_constr,
        decreases ast.nodes@.len() - root,
    {
        let node = &ast.nodes[root];
        let mut sign: i8 = prev_sign;
        match &node.data_index {
            Some(d) => {
                proof {
                    assert(ast.wf_node(root as int));
                }
                let token = &ast.data[*d];
                match token {
                    Token::Variable(name, coef) => {
                        let eff = if prev_sign == -1 {
                            coef.negated()
                        } else {
                            *coef
                        };
                        self.add_symbol(name, Symbol::Constr(row, eff));
                    },
                    Token::Num(v) => {
                        if matches!(node.node_type, ASTNodeTypes::RHS) {
                            let rhs_name = String::from_str("RHS");
                            proof {
                                reveal_strlit("RHS");
                                assert(rhs_name@ =~= rhs_key());
                            }
                            self.add_symbol(&rhs_name, Symbol::RHS(row, *v));
                        }
                    },
                    Token::ArithOp(op) => {
                        match op {
                            crate::tokens::ArithOperation::Add => {
                                sign = 1;
                            },
                            crate::tokens::ArithOperation::Sub => {
                                sign = -1;
                            },
                            _ => {},
                        }
                    },
                    _ => {},
                }
            },
            None => {},
        }
        let ghost kids = node_children(ast.nodes@[root as int]);
        let ghost t_mid = self.entries();
        let ghost sign_mid = sign;
        match &node.children {
            Some(children) => {
                let mut j: usize = 0;
                while j < children.len()
                    invariant
                        j <= children@.len(),
                        self.wf(),
                        self.n_constr == old(self).n_constr,
                        constr_walk_children(*ast, root as int, kids, j as int, sign, self.entries(), row)
                            == constr_walk_children(*ast, root as int, kids, 0, sign_mid, t_mid, row),
                    decreases children@.len() - j,
                {
                    let child = children[j];
                    proof {
                        assert(ast.wf_node(root as int));
                        assert(kids[j as int] == child);
                    }
                    sign = self.collect_constraint_symbol(ast, child, row, sign);
                    j = j + 1;
                }
                sign
            },
            None => {
                proof {
                    assert(kids =~= Seq::<usize>::empty());
                }
                sign
            },
        }
    }

    /// Walk every `Constraint` child of `root` with its position as the row,
    /// exactly as [`constraints_walk`] says.
    #[verifier::loop_isolation(false)]
    fn collect_constraints_symbols(&mut self, ast: &AST, root: usize)
        requires
            old(self).wf(),
            ast.wf(),
            root < ast.nodes@.len(),
        ensures
            final(self).wf(),
            final(self).entries() == constraints_walk(
                *ast,
                root as int,
                node_children(ast.nodes@[root as int]),
                0,
                old(self).entries(),
            ),
            final(self).n_constr == old(self).n_constr,
    {
        let node = &ast.nodes[root];
        let ghost kids = node_children(ast.nodes@[root as int]);
        let ghost t0 = self.entries();
        match &node.children {
            Some(children) => {
                let mut j: usize = 0;
                while j < children.len()
                    invariant
                        j <= children@.len(),
                        self.wf(),
                        self.n_constr == old(self).n_constr,
                        constraints_walk(*ast, root as int, kids, j as int, self.entries())
                            == constraints_walk(*ast, root as int, kids, 0, t0),
                    decreases children@.len() - j,
                {
                    let child = children[j];
                    proof {
                        assert(ast.wf_node(root as int));
                        assert(kids[j as int] == child);
                    }
                    let row = if j <= u32::MAX as usize {
                        j as u32
                    } else {
                        u32::MAX
                    };
                    if matches!(ast.nodes[child].node_type, ASTNodeTypes::Constraint) {
                        self.collect_constraint_symbol(ast, child, row, 1);
                    }
                    j = j + 1;
                }
            },
            None => {
                proof {
                    assert(kids =~= Seq::<usize>::empty());
                }
            },
        }
    }

    /// Build the symbol table of a parsed program, exactly as
    /// [`spec_symbol_table`] and [`spec_n_constr`] say.
    pub fn from(ast: AST) -> (r: SymbolTable)
        requires
            ast.wf(),
        ensures
            r.wf(),
            r.entries() == spec_symbol_table(ast),
            r.n_constr == spec_n_constr(ast),
    {
        let mut table = SymbolTable::new();
        proof {
            assert(table.entries() =~= Seq::<(Seq<char>, Seq<Symbol>)>::empty());
        }
        match ast.find_root(ASTNodeTypes::Objective) {
            Some(obj_root) => {
                proof {
                    lemma_first_of_type_range(ast, ASTNodeTypes::Objective, 0, obj_root as int);
                    assert(first_of_type_from(ast, ASTNodeTypes::Objective, 0) == Some(
                        obj_root as int,
                    ));
                }
                table.collect_objective_symbols(&ast, obj_root, 1);
            },
            None => {
                proof {
                    lemma_first_of_type_range(
                        ast,
                        ASTNodeTypes::Objective,
                        0,
                        ast.nodes@.len() as int,
                    );
                }
            },
        }
        match ast.find_root(ASTNodeTypes::Constraints) {
            Some(con_root) => {
                proof {
                    lemma_first_of_type_range(ast, ASTNodeTypes::Constraints, 0, con_root as int);
                }
                table.collect_constraints_symbols(&ast, con_root);
                let node = &ast.nodes[con_root];
                let n = match &node.children {
                    Some(children) => children.len(),
                    None => 0,
                };
                proof {
                    if node.children is None {
                        assert(node_children(ast.nodes@[con_root as int]) =~= Seq::<
                            usize,
                        >::empty());
                    }
                }
                table.n_constr = if n <= u32::MAX as usize {
                    n as u32
                } else {
                    u32::MAX
                };
            },
            None => {
                proof {
                    lemma_first_of_type_range(
                        ast,
                        ASTNodeTypes::Constraints,
                        0,
                        ast.nodes@.len() as int,
                    );
                }
            },
        }
        table
    }

    /// The contributions recorded under `name`, if any.
    pub fn get(&self, name: &str) -> (r: Option<&Vec<Symbol>>)
        ensures
            match r {
                Some(v) => key_index(self.entries(), name@) >= 0 && v@ == self.entries()[key_index(
                    self.entries(),
                    name@,
                )].1,
                None => key_index(self.entries(), name@) == -1,
            },
    {
        let key = String::from_str(name);
        let ghost t = self.entries();
        proof {
            lemma_key_index(t, name@);
        }
        let mut i: usize = 0;
        while i < self.table.len()
            invariant
                i <= self.table@.len(),
                t == self.entries(),
                key@ == name@,
                forall|j: int| 0 <= j < i ==> (#[trigger] t[j]).0 != name@,
            decreases self.table@.len() - i,
        {
            if self.table[i].0.eq(&key) {
                proof {
                    assert(t[i as int].0 == name@);
                    lemma_key_index(t, name@);
                    if key_index(t, name@) == -1 {
                        assert(t[i as int].0 != name@);
                        assert(false);
                    } else if key_index(t, name@) < i as int {
                        assert(t[key_index(t, name@)].0 == name@);
                        assert(false);
                    } else if key_index(t, name@) > i as int {
                        assert(t[i as int].0 != name@);
                        assert(false);
                    }
                    assert(key_index(t, name@) == i as int);
                }
                return Some(&self.table[i].1);
            }
            i = i + 1;
        }
        proof {
            if key_index(t, name@) >= 0 {
                assert(t[key_index(t, name@)].0 == name@);
            }
        }
        None
    }

    /// How many distinct keys the table holds.
    pub fn len(&self) -> (r: usize)
        ensures
            r == self.entries().len(),
    {
        self.table.len()
    }
}


/// The row a contribution carries; an objective contribution has none and
/// counts as row zero.
pub open spec fn sym_row(s: Symbol) -> u32 {
    match s {
        Symbol::Obj(_) => 0,
        Symbol::Constr(r, _) => r,
        Symbol::RHS(r, _) => r,
    }
}

/// `t2` extends `t`: the old keys keep their places and their entries, and
/// lists only grow at the end.
pub open spec fn table_ext(t2: TableV, t: TableV) -> bool {
    &&& t.len() <= t2.len()
    &&& forall|i: int| 0 <= i < t.len() ==> (#[trigger] t2[i]).0 == t[i].0
    &&& forall|i: int| 0 <= i < t.len() ==> (#[trigger] t2[i]).1.len() >= t[i].1.len()
    &&& forall|i: int, n: int|
        0 <= i < t.len() && 0 <= n < t[i].1.len() ==> (#[trigger] t2[i].1[n]) == t[i].1[n]
}

/// Position `(i, n)` of `t2` lies beyond what `t` already held.
pub open spec fn appended_at(t2: TableV, t: TableV, i: int, n: int) -> bool {
    &&& 0 <= i < t2.len()
    &&& 0 <= n < t2[i].1.len()
    &&& i >= t.len() || n >= t[i].1.len()
}

/// Every contribution of `t2` beyond `t` satisfies `p`.
pub open spec fn appended_satisfy(t2: TableV, t: TableV, p: spec_fn(Symbol) -> bool) -> bool {
    forall|i: int, n: int| #[trigger] appended_at(t2, t, i, n) ==> p(t2[i].1[n])
}

/// Within each key, the rows of the contributions beyond `t` never decrease.
pub open spec fn appended_rows_ordered(t2: TableV, t: TableV) -> bool {
    forall|i: int, n1: int, n2: int|
        #[trigger] appended_at(t2, t, i, n1) && #[trigger] appended_at(t2, t, i, n2) && n1 <= n2
            ==> sym_row(t2[i].1[n1]) <= sym_row(t2[i].1[n2])
}

/// Adding one contribution extends the table, and the only new contribution
/// is the added one.
pub proof fn lemma_table_add_ext(t: TableV, k: Seq<char>, s: Symbol)
    ensures
        table_ext(table_add(t, k, s), t),
        appended_satisfy(table_add(t, k, s), t, |x: Symbol| x == s),
{
    lemma_key_index(t, k);
    let t2 = table_add(t, k, s);
    assert forall|i: int, n: int| #[trigger] appended_at(t2, t, i, n) implies (|x: Symbol| x == s)(
        t2[i].1[n],
    ) by {
        if key_index(t, k) < 0 {
            assert(i == t.len());
            assert(t2[i].1 =~= seq![s]);
        } else {
            assert(i == key_index(t, k));
            assert(t2[i].1 == t[i].1.push(s));
            assert(n == t[i].1.len());
        }
    }
}

/// Table extension composes.
pub proof fn lemma_table_ext_trans(t3: TableV, t2: TableV, t: TableV)
    requires
        table_ext(t3, t2),
        table_ext(t2, t),
    ensures
        table_ext(t3, t),
{
}

/// A predicate satisfied by what each of two extensions appended is
/// satisfied by what the combined extension appended.
pub proof fn lemma_appended_compose(t3: TableV, t2: TableV, t: TableV, p: spec_fn(Symbol) -> bool)
    requires
        table_ext(t3, t2),
        table_ext(t2, t),
        appended_satisfy(t3, t2, p),
        appended_satisfy(t2, t, p),
    ensures
        appended_satisfy(t3, t, p),
{
    assert forall|i: int, n: int| #[trigger] appended_at(t3, t, i, n) implies p(t3[i].1[n]) by {
        if i < t2.len() && n < t2[i].1.len() {
            assert(appended_at(t2, t, i, n));
            assert(t3[i].1[n] == t2[i].1[n]);
        } else {
            assert(appended_at(t3, t2, i, n));
        }
    }
}

/// The objective walk only appends objective contributions.
pub proof fn lemma_obj_walk_appends(ast: AST, root: int, sign: i8, t: TableV)
    ensures
        table_ext(obj_walk(ast, root, sign, t).1, t),
        appended_satisfy(obj_walk(ast, root, sign, t).1, t, |x: Symbol| x is Obj),
    decreases ast.nodes@.len() - root, 1int, 0int,
{
    if 0 <= root < ast.nodes@.len() {
        let n = ast.nodes@[root];
        match n.data_index {
            Some(d) => {
                let tok = ast.data@[d as int]@;
                match tok {
                    TokenV::Variable(name, coef) => {
                        let eff = if sign == -1 {
                            coef.spec_negated()
                        } else {
                            coef
                        };
                        lemma_table_add_ext(t, name, Symbol::Obj(eff));
                    },
                    _ => {},
                }
            },
            None => {
                lemma_obj_walk_children_appends(ast, root, node_children(n), 0, sign, t);
            },
        }
    }
}

/// The fold of the objective walk only appends objective contributions.
pub proof fn lemma_obj_walk_children_appends(
    ast: AST,
    root: int,
    kids: Seq<usize>,
    j: int,
    sign: i8,
    t: TableV,
)
    ensures
        table_ext(obj_walk_children(ast, root, kids, j, sign, t).1, t),
        appended_satisfy(obj_walk_children(ast, root, kids, j, sign, t).1, t, |x: Symbol| x is Obj),
    decreases ast.nodes@.len() - root, 0int, kids.len() - j,
{
    if 0 <= j < kids.len() {
        let child = kids[j] as int;
        if root < child < ast.nodes@.len() {
            let step = obj_walk(ast, child, sign, t);
            lemma_obj_walk_appends(ast, child, sign, t);
            lemma_obj_walk_children_appends(ast, root, kids, j + 1, step.0, step.1);
            let t2 = obj_walk_children(ast, root, kids, j, sign, t).1;
            lemma_table_ext_trans(t2, step.1, t);
            lemma_appended_compose(t2, step.1, t, |x: Symbol| x is Obj);
        }
    }
}

/// The walk of one constraint only appends contributions carrying its row.
pub proof fn lemma_constr_walk_appends(ast: AST, root: int, row: u32, sign: i8, t: TableV)
    ensures
        table_ext(constr_walk(ast, root, row, sign, t).1, t),
        appended_satisfy(
            constr_walk(ast, root, row, sign, t).1,
            t,
            |x: Symbol| !(x is Obj) && sym_row(x) == row,
        ),
    decreases ast.nodes@.len() - root, 1int, 0int,
{
    let p = |x: Symbol| !(x is Obj) && sym_row(x) == row;
    if 0 <= root < ast.nodes@.len() {
        let n = ast.nodes@[root];
        let stepped = match n.data_index {
            Some(d) => {
                let tok = ast.data@[d as int]@;
                match tok {
                    TokenV::Variable(name, coef) => {
                        let eff = if sign == -1 {
                            coef.spec_negated()
                        } else {
                            coef
                        };
                        lemma_table_add_ext(t, name, Symbol::Constr(row, eff));
                        constr_walk(ast, root, row, sign, t)
                    },
                    TokenV::Num(v) => {
                        if n.node_type == ASTNodeTypes::RHS {
                            lemma_table_add_ext(t, rhs_key(), Symbol::RHS(row, v));
                        }
                        constr_walk(ast, root, row, sign, t)
                    },
                    _ => constr_walk(ast, root, row, sign, t),
                }
            },
            None => constr_walk(ast, root, row, sign, t),
        };
        let mid = match n.data_index {
            Some(d) => {
                let tok = ast.data@[d as int]@;
                match tok {
                    TokenV::Variable(name, coef) => {
                        let eff = if sign == -1 {
                            coef.spec_negated()
                        } else {
                            coef
                        };
                        (sign, table_add(t, name, Symbol::Constr(row, eff)))
                    },
                    TokenV::Num(v) => {
                        if n.node_type == ASTNodeTypes::RHS {
                            (sign, table_add(t, rhs_key(), Symbol::RHS(row, v)))
                        } else {
                            (sign, t)
                        }
                    },
                    TokenV::ArithOp(op) => {
                        match op {
                            crate::tokens::ArithOperation::Add => (1i8, t),
                            crate::tokens::ArithOperation::Sub => (-1i8, t),
                            _ => (sign, t),
                        }
                    },
                    _ => (sign, t),
                }
            },
            None => (sign, t),
        };
        lemma_constr_walk_children_appends(ast, root, node_children(n), 0, mid.0, mid.1, row);
        let t2 = constr_walk(ast, root, row, sign, t).1;
        lemma_table_ext_trans(t2, mid.1, t);
        lemma_appended_compose(t2, mid.1, t, p);
    }
}

/// The fold of the constraint walk only appends contributions of its row.
pub proof fn lemma_constr_walk_children_appends(
    ast: AST,
    root: int,
    kids: Seq<usize>,
    j: int,
    sign: i8,
    t: TableV,
    row: u32,
)
    ensures
        table_ext(constr_walk_children(ast, root, kids, j, sign, t, row).1, t),
        appended_satisfy(
            constr_walk_children(ast, root, kids, j, sign, t, row).1,
            t,
            |x: Symbol| !(x is Obj) && sym_row(x) == row,
        ),
    decreases ast.nodes@.len() - root, 0int, kids.len() - j,
{
    if 0 <= j < kids.len() {
        let child = kids[j] as int;
        if root < child < ast.nodes@.len() {
            let step = constr_walk(ast, child, row, sign, t);
            lemma_constr_walk_appends(ast, child, row, sign, t);
            lemma_constr_walk_children_appends(ast, root, kids, j + 1, step.0, step.1, row);
            let t2 = constr_walk_children(ast, root, kids, j, sign, t, row).1;
            lemma_table_ext_trans(t2, step.1, t);
            lemma_appended_compose(t2, step.1, t, |x: Symbol| !(x is Obj) && sym_row(x) == row);
        }
    }
}

/// Later child positions never get smaller rows.
pub proof fn lemma_row_of_monotone(j: int, k: int)
    requires
        0 <= j <= k,
    ensures
        row_of(j) <= row_of(k),
{
}

/// The constraints pass from child `j` on appends only constraint-row and
/// right-hand-side contributions with rows at least `row_of(j)`, and within
/// each key those rows never decrease.
pub proof fn lemma_constraints_walk_rows(ast: AST, root: int, kids: Seq<usize>, j: int, t: TableV)
    requires
        j >= 0,
    ensures
        table_ext(constraints_walk(ast, root, kids, j, t), t),
        appended_satisfy(
            constraints_walk(ast, root, kids, j, t),
            t,
            |x: Symbol|
                !(x is Obj) && sym_row(x) >= row_of(j) && (kids.len() <= u32::MAX ==> (sym_row(
                    x,
                ) as int) < kids.len()),
        ),
        appended_rows_ordered(constraints_walk(ast, root, kids, j, t), t),
    decreases kids.len() - j,
{
    let p = |x: Symbol|
        !(x is Obj) && sym_row(x) >= row_of(j) && (kids.len() <= u32::MAX ==> (sym_row(x) as int)
            < kids.len());
    let t2 = constraints_walk(ast, root, kids, j, t);
    if j < kids.len() {
        let child = kids[j] as int;
        let is_c = 0 <= child < ast.nodes@.len() && ast.nodes@[child].node_type
            == ASTNodeTypes::Constraint && child > root;
        let ts = if is_c {
            constr_walk(ast, child, row_of(j), 1i8, t).1
        } else {
            t
        };
        if is_c {
            lemma_constr_walk_appends(ast, child, row_of(j), 1i8, t);
        }
        lemma_constraints_walk_rows(ast, root, kids, j + 1, ts);
        lemma_table_ext_trans(t2, ts, t);
        lemma_row_of_monotone(j, j + 1);
        assert forall|i: int, n: int| #[trigger] appended_at(t2, t, i, n) implies p(
            t2[i].1[n],
        ) by {
            if i < ts.len() && n < ts[i].1.len() {
                assert(appended_at(ts, t, i, n));
                assert(t2[i].1[n] == ts[i].1[n]);
                assert(sym_row(t2[i].1[n]) == row_of(j));
            } else {
                assert(appended_at(t2, ts, i, n));
                assert(sym_row(t2[i].1[n]) >= row_of(j + 1));
            }
        }
        assert forall|i: int, n1: int, n2: int|
            #[trigger] appended_at(t2, t, i, n1) && #[trigger] appended_at(t2, t, i, n2) && n1
                <= n2 implies sym_row(t2[i].1[n1]) <= sym_row(t2[i].1[n2]) by {
            let in_ts_1 = i < ts.len() && n1 < ts[i].1.len();
            let in_ts_2 = i < ts.len() && n2 < ts[i].1.len();
            if in_ts_1 && in_ts_2 {
                assert(appended_at(ts, t, i, n1));
                assert(appended_at(ts, t, i, n2));
                assert(t2[i].1[n1] == ts[i].1[n1]);
                assert(t2[i].1[n2] == ts[i].1[n2]);
                assert(sym_row(ts[i].1[n1]) == row_of(j));
                assert(sym_row(ts[i].1[n2]) == row_of(j));
            } else if in_ts_1 {
                assert(appended_at(ts, t, i, n1));
                assert(t2[i].1[n1] == ts[i].1[n1]);
                assert(sym_row(t2[i].1[n1]) == row_of(j));
                assert(appended_at(t2, ts, i, n2));
                assert(sym_row(t2[i].1[n2]) >= row_of(j + 1));
            } else {
                assert(appended_at(t2, ts, i, n1));
                assert(appended_at(t2, ts, i, n2));
            }
        }
    }
}

/// In the symbol table of a program, the constraint and right-hand-side
/// contributions of every name appear with rows in nondecreasing order: a
/// variable referenced by several constraints gets its entries in the order
/// of those constraints.
pub proof fn lemma_symbol_table_rows_ordered(ast: AST)
    ensures
        forall|i: int, n1: int, n2: int|
            (0 <= i < spec_symbol_table(ast).len() && 0 <= n1 < spec_symbol_table(
                ast,
            )[i].1.len() && 0 <= n2 < spec_symbol_table(ast)[i].1.len() && n1 <= n2 && !((
            #[trigger] spec_symbol_table(ast)[i].1[n1]) is Obj) && !((
            #[trigger] spec_symbol_table(ast)[i].1[n2]) is Obj)) ==> sym_row(
                spec_symbol_table(ast)[i].1[n1],
            ) <= sym_row(spec_symbol_table(ast)[i].1[n2]),
{
    let t0 = Seq::<(Seq<char>, Seq<Symbol>)>::empty();
    let t1 = match first_of_type_from(ast, ASTNodeTypes::Objective, 0) {
        Some(i) => obj_walk(ast, i, 1i8, t0).1,
        None => t0,
    };
    match first_of_type_from(ast, ASTNodeTypes::Objective, 0) {
        Some(i) => {
            lemma_obj_walk_appends(ast, i, 1i8, t0);
        },
        None => {},
    }
    assert(appended_satisfy(t1, t0, |x: Symbol| x is Obj));
    assert forall|i: int, n: int| 0 <= i < t1.len() && 0 <= n < t1[i].1.len() implies t1[i].1[n]
        is Obj by {
        assert(appended_at(t1, t0, i, n));
    }
    let t = spec_symbol_table(ast);
    match first_of_type_from(ast, ASTNodeTypes::Constraints, 0) {
        Some(c) => {
            lemma_constraints_walk_rows(ast, c, node_children(ast.nodes@[c]), 0, t1);
            assert forall|i: int, n1: int, n2: int|
                (0 <= i < t.len() && 0 <= n1 < t[i].1.len() && 0 <= n2 < t[i].1.len() && n1 <= n2
                    && !((#[trigger] t[i].1[n1]) is Obj) && !((
                #[trigger] t[i].1[n2]) is Obj)) implies sym_row(t[i].1[n1]) <= sym_row(
                t[i].1[n2],
            ) by {
                if i < t1.len() && n1 < t1[i].1.len() {
                    assert(t[i].1[n1] == t1[i].1[n1]);
                    assert(false);
                }
                if i < t1.len() && n2 < t1[i].1.len() {
                    assert(t[i].1[n2] == t1[i].1[n2]);
                    assert(false);
                }
                assert(appended_at(t, t1, i, n1));
                assert(appended_at(t, t1, i, n2));
            }
        },
        None => {
            assert(t == t1);
            assert forall|i: int, n1: int, n2: int|
                (0 <= i < t.len() && 0 <= n1 < t[i].1.len() && 0 <= n2 < t[i].1.len() && n1 <= n2
                    && !((#[trigger] t[i].1[n1]) is Obj) && !((
                #[trigger] t[i].1[n2]) is Obj)) implies sym_row(t[i].1[n1]) <= sym_row(
                t[i].1[n2],
            ) by {
                assert(t[i].1[n1] is Obj);
            }
        },
    }
}


/// Every constraint-row or right-hand-side contribution in the symbol table
/// of a program carries a row below the recorded number of constraints: the
/// rows are exactly the positions of the constraints in source order.
pub proof fn lemma_symbol_table_rows_below(ast: AST)
    requires
        match first_of_type_from(ast, ASTNodeTypes::Constraints, 0) {
            Some(c) => node_children(ast.nodes@[c]).len() <= u32::MAX,
            None => true,
        },
    ensures
        forall|i: int, n: int|
            (0 <= i < spec_symbol_table(ast).len() && 0 <= n < spec_symbol_table(
                ast,
            )[i].1.len() && !((#[trigger] spec_symbol_table(ast)[i].1[n]) is Obj)) ==> (sym_row(
                spec_symbol_table(ast)[i].1[n],
            ) as int) < spec_n_constr(ast),
{
    let t0 = Seq::<(Seq<char>, Seq<Symbol>)>::empty();
    let t1 = match first_of_type_from(ast, ASTNodeTypes::Objective, 0) {
        Some(i) => obj_walk(ast, i, 1i8, t0).1,
        None => t0,
    };
    match first_of_type_from(ast, ASTNodeTypes::Objective, 0) {
        Some(i) => {
            lemma_obj_walk_appends(ast, i, 1i8, t0);
        },
        None => {},
    }
    assert forall|i: int, n: int| 0 <= i < t1.len() && 0 <= n < t1[i].1.len() implies t1[i].1[n]
        is Obj by {
        assert(appended_at(t1, t0, i, n));
    }
    let t = spec_symbol_table(ast);
    match first_of_type_from(ast, ASTNodeTypes::Constraints, 0) {
        Some(c) => {
            let kids = node_children(ast.nodes@[c]);
            lemma_constraints_walk_rows(ast, c, kids, 0, t1);
            assert forall|i: int, n: int|
                (0 <= i < t.len() && 0 <= n < t[i].1.len() && !((
                #[trigger] t[i].1[n]) is Obj)) implies (sym_row(t[i].1[n]) as int) < spec_n_constr(
                ast,
            ) by {
                if i < t1.len() && n < t1[i].1.len() {
                    assert(t[i].1[n] == t1[i].1[n]);
                    assert(false);
                }
                assert(appended_at(t, t1, i, n));
                assert(spec_n_constr(ast) == row_of(kids.len() as int));
            }
        },
        None => {
            assert(t == t1);
            assert forall|i: int, n: int|
                (0 <= i < t.len() && 0 <= n < t[i].1.len() && !((
                #[trigger] t[i].1[n]) is Obj)) implies (sym_row(t[i].1[n]) as int) < spec_n_constr(
                ast,
            ) by {
                assert(t[i].1[n] is Obj);
            }
        },
    }
}

} // verus!
