use vstd::prelude::*;

verus! {

/// The value types of the language.
#[derive(Clone, Copy, Debug, PartialEq, Eq, Structural)]
pub enum Type {
    Int,
    Char,
    String,
}

/// The name under which a type appears in diagnostics.
pub open spec fn type_label(t: Type) -> Seq<char> {
    match t {
        Type::Int => "Int"@,
        Type::Char => "Char"@,
        Type::String => "String"@,
    }
}

#[derive(Debug, PartialEq)]
pub enum Expr {
    IntegerLit(i32),
    CharLit(char),
    StringLit(String),
    Identifier(String),
    Assignment { target: Box<Expr>, op: String, value: Box<Expr> },
    BinaryOp { left: Box<Expr>, op: String, right: Box<Expr> },
    UnaryOp { op: String, expr: Box<Expr> },
    FunCall { callee: String, args: Vec<Expr> },
}

/// Mathematical model of an expression: strings become character sequences.
pub enum SpecExpr {
    IntegerLit(i32),
    CharLit(char),
    StringLit(Seq<char>),
    Identifier(Seq<char>),
    Assignment { target: Box<SpecExpr>, op: Seq<char>, value: Box<SpecExpr> },
    BinaryOp { left: Box<SpecExpr>, op: Seq<char>, right: Box<SpecExpr> },
    UnaryOp { op: Seq<char>, expr: Box<SpecExpr> },
    FunCall { callee: Seq<char>, args: Seq<SpecExpr> },
}

pub open spec fn expr_view(e: Expr) -> SpecExpr
    decreases e,
{
    match e {
        Expr::IntegerLit(v) => SpecExpr::IntegerLit(v),
        Expr::CharLit(c) => SpecExpr::CharLit(c),
        Expr::StringLit(s) => SpecExpr::StringLit(s@),
        Expr::Identifier(s) => SpecExpr::Identifier(s@),
        Expr::Assignment { target, op, value } => SpecExpr::Assignment {
            target: Box::new(expr_view(*target)),
            op: op@,
            value: Box::new(expr_view(*value)),
        },
        Expr::BinaryOp { left, op, right } => SpecExpr::BinaryOp {
            left: Box::new(expr_view(*left)),
            op: op@,
            right: Box::new(expr_view(*right)),
        },
        Expr::UnaryOp { op, expr } => SpecExpr::UnaryOp { op: op@, expr: Box::new(expr_view(*expr)) },
        Expr::FunCall { callee, args } => SpecExpr::FunCall {
            callee: callee@,
            args: exprs_view(args@),
        },
    }
}

pub open spec fn exprs_view(s: Seq<Expr>) -> Seq<SpecExpr>
    decreases s,
{
    if s.len() == 0 {
        Seq::empty()
    } else {
        exprs_view(s.subrange(0, s.len() - 1)).push(expr_view(s[s.len() - 1]))
    }
}

impl View for Expr {
    type V = SpecExpr;

    open spec fn view(&self) -> SpecExpr {
        expr_view(*self)
    }
}

/// The length and elements of the model of a sequence of expressions.
pub broadcast proof fn lemma_exprs_view(s: Seq<Expr>)
    ensures
        #[trigger] exprs_view(s).len() == s.len(),
        forall|i: int| 0 <= i < s.len() ==> exprs_view(s)[i] == expr_view(#[trigger] s[i]),
    decreases s.len(),
{
    if s.len() > 0 {
        lemma_exprs_view(s.subrange(0, s.len() - 1));
        assert forall|i: int| 0 <= i < s.len() implies exprs_view(s)[i] == expr_view(#[trigger] s[i]) by {
            if i < s.len() - 1 {
                assert(s.subrange(0, s.len() - 1)[i] == s[i]);
            }
        }
    }
}

/// Appending an expression appends its model.
pub broadcast proof fn lemma_exprs_view_push(s: Seq<Expr>, e: Expr)
    ensures
        #[trigger] exprs_view(s.push(e)) == exprs_view(s).push(expr_view(e)),
{
    assert(s.push(e).subrange(0, s.len() as int) =~= s);
}

#[derive(Debug, PartialEq)]
#[allow(non_snake_case)]
pub enum Stmt {
    VarDeclaration { varType: Type, name: String, value: Option<Expr> },
    ReturnStmt(Option<Expr>),
    Expr(Expr),
    Block(Vec<Stmt>),
    If { condition: Expr, b_then: Box<Stmt>, b_else: Option<Box<Stmt>> },
    While { condition: Expr, body: Box<Stmt> },
    DoWhile { body: Box<Stmt>, condition: Expr },
    For { init: Option<Box<Stmt>>, condition: Expr, update: Option<Expr>, body: Box<Stmt> },
    Switch { cond: Expr, cases: Vec<SwitchCase> },
    Break,
    Continue,
}

#[derive(Debug, PartialEq)]
pub struct SwitchCase {
    pub value: Option<Expr>,
    pub body: Vec<Stmt>,
}

/// Mathematical model of a statement.
pub enum SpecStmt {
    VarDeclaration { var_type: Type, name: Seq<char>, value: Option<SpecExpr> },
    ReturnStmt(Option<SpecExpr>),
    Expr(SpecExpr),
    Block(Seq<SpecStmt>),
    If { condition: SpecExpr, b_then: Box<SpecStmt>, b_else: Option<Box<SpecStmt>> },
    While { condition: SpecExpr, body: Box<SpecStmt> },
    DoWhile { body: Box<SpecStmt>, condition: SpecExpr },
    For {
        init: Option<Box<SpecStmt>>,
        condition: SpecExpr,
        update: Option<SpecExpr>,
        body: Box<SpecStmt>,
    },
    Switch { cond: SpecExpr, cases: Seq<SpecSwitchCase> },
    Break,
    Continue,
}

/// Mathematical model of a switch case.
pub struct SpecSwitchCase {
    pub value: Option<SpecExpr>,
    pub body: Seq<SpecStmt>,
}

pub open spec fn opt_expr_view(e: Option<Expr>) -> Option<SpecExpr> {
    match e {
        Some(e) => Some(expr_view(e)),
        None => None,
    }
}

pub open spec fn stmt_view(s: Stmt) -> SpecStmt
    decreases s,
{
    match s {
        Stmt::VarDeclaration { varType, name, value } => SpecStmt::VarDeclaration {
            var_type: varType,
            name: name@,
            value: opt_expr_view(value),
        },
        Stmt::ReturnStmt(v) => SpecStmt::ReturnStmt(opt_expr_view(v)),
        Stmt::Expr(e) => SpecStmt::Expr(expr_view(e)),
        Stmt::Block(b) => SpecStmt::Block(stmts_view(b@)),
        Stmt::If { condition, b_then, b_else } => SpecStmt::If {
            condition: expr_view(condition),
            b_then: Box::new(stmt_view(*b_then)),
            b_else: match b_else {
                Some(e) => Some(Box::new(stmt_view(*e))),
                None => None,
            },
        },
        Stmt::While { condition, body } => SpecStmt::While {
            condition: expr_view(condition),
            body: Box::new(stmt_view(*body)),
        },
        Stmt::DoWhile { body, condition } => SpecStmt::DoWhile {
            body: Box::new(stmt_view(*body)),
            condition: expr_view(condition),
        },
        Stmt::For { init, condition, update, body } => SpecStmt::For {
            init: match init {
                Some(i) => Some(Box::new(stmt_view(*i))),
                None => None,
            },
            condition: expr_view(condition),
            update: opt_expr_view(update),
            body: Box::new(stmt_view(*body)),
        },
        Stmt::Switch { cond, cases } => SpecStmt::Switch {
            cond: expr_view(cond),
            cases: cases_view(cases@),
        },
        Stmt::Break => SpecStmt::Break,
        Stmt::Continue => SpecStmt::Continue,
    }
}

pub open spec fn stmts_view(s: Seq<Stmt>) -> Seq<SpecStmt>
    decreases s,
{
    if s.len() == 0 {
        Seq::empty()
    } else {
        stmts_view(s.subrange(0, s.len() - 1)).push(stmt_view(s[s.len() - 1]))
    }
}

pub open spec fn case_view(c: SwitchCase) -> SpecSwitchCase
    decreases c,
{
    SpecSwitchCase { value: opt_expr_view(c.value), body: stmts_view(c.body@) }
}

pub open spec fn cases_view(s: Seq<SwitchCase>) -> Seq<SpecSwitchCase>
    decreases s,
{
    if s.len() == 0 {
        Seq::empty()
    } else {
        cases_view(s.subrange(0, s.len() - 1)).push(case_view(s[s.len() - 1]))
    }
}

impl View for Stmt {
    type V = SpecStmt;

    open spec fn view(&self) -> SpecStmt {
        stmt_view(*self)
    }
}

impl View for SwitchCase {
    type V = SpecSwitchCase;

    open spec fn view(&self) -> SpecSwitchCase {
        case_view(*self)
    }
}

/// The length and elements of the model of a sequence of statements.
pub broadcast proof fn lemma_stmts_view(s: Seq<Stmt>)
    ensures
        #[trigger] stmts_view(s).len() == s.len(),
        forall|i: int| 0 <= i < s.len() ==> stmts_view(s)[i] == stmt_view(#[trigger] s[i]),
    decreases s.len(),
{
    if s.len() > 0 {
        lemma_stmts_view(s.subrange(0, s.len() - 1));
        assert forall|i: int| 0 <= i < s.len() implies stmts_view(s)[i] == stmt_view(#[trigger] s[i]) by {
            if i < s.len() - 1 {
                assert(s.subrange(0, s.len() - 1)[i] == s[i]);
            }
        }
    }
}

/// Appending a statement appends its model.
pub broadcast proof fn lemma_stmts_view_push(s: Seq<Stmt>, e: Stmt)
    ensures
        #[trigger] stmts_view(s.push(e)) == stmts_view(s).push(stmt_view(e)),
{
    assert(s.push(e).subrange(0, s.len() as int) =~= s);
}

/// The length and elements of the model of a sequence of switch cases.
pub broadcast proof fn lemma_cases_view(s: Seq<SwitchCase>)
    ensures
        #[trigger] cases_view(s).len() == s.len(),
        forall|i: int| 0 <= i < s.len() ==> cases_view(s)[i] == case_view(#[trigger] s[i]),
    decreases s.len(),
{
    if s.len() > 0 {
        lemma_cases_view(s.subrange(0, s.len() - 1));
        assert forall|i: int| 0 <= i < s.len() implies cases_view(s)[i] == case_view(#[trigger] s[i]) by {
            if i < s.len() - 1 {
                assert(s.subrange(0, s.len() - 1)[i] == s[i]);
            }
        }
    }
}

/// Appending a case appends its model.
pub broadcast proof fn lemma_cases_view_push(s: Seq<SwitchCase>, e: SwitchCase)
    ensures
        #[trigger] cases_view(s.push(e)) == cases_view(s).push(case_view(e)),
{
    assert(s.push(e).subrange(0, s.len() as int) =~= s);
}

#[derive(Debug, PartialEq, Clone)]
pub struct Param {
    pub param_type: Type,
    pub name: String,
}

pub struct SpecParam {
    pub param_type: Type,
    pub name: Seq<char>,
}

impl View for Param {
    type V = SpecParam;

    open spec fn view(&self) -> SpecParam {
        SpecParam { param_type: self.param_type, name: self.name@ }
    }
}

pub open spec fn params_view(s: Seq<Param>) -> Seq<SpecParam> {
    s.map_values(|p: Param| p@)
}

#[derive(Debug, PartialEq, Clone)]
pub struct Function {
    pub ret_type: Type,
    pub name: String,
    pub params: Vec<Param>,
    pub body: Vec<Stmt>,
}

pub struct SpecFunction {
    pub ret_type: Type,
    pub name: Seq<char>,
    pub params: Seq<SpecParam>,
    pub body: Seq<SpecStmt>,
}

impl View for Function {
    type V = SpecFunction;

    open spec fn view(&self) -> SpecFunction {
        SpecFunction {
            ret_type: self.ret_type,
            name: self.name@,
            params: params_view(self.params@),
            body: stmts_view(self.body@),
        }
    }
}

#[derive(Debug, PartialEq, Clone)]
pub struct FunctionDecl {
    pub ret_type: Type,
    pub name: String,
    pub params: Vec<Param>,
}

pub struct SpecFunctionDecl {
    pub ret_type: Type,
    pub name: Seq<char>,
    pub params: Seq<SpecParam>,
}

impl View for FunctionDecl {
    type V = SpecFunctionDecl;

    open spec fn view(&self) -> SpecFunctionDecl {
        SpecFunctionDecl {
            ret_type: self.ret_type,
            name: self.name@,
            params: params_view(self.params@),
        }
    }
}

#[derive(Debug, PartialEq, Clone)]
pub enum Item {
    Function(Function),
    FunctionDecl(FunctionDecl),
}

pub enum SpecItem {
    Function(SpecFunction),
    FunctionDecl(SpecFunctionDecl),
}

impl View for Item {
    type V = SpecItem;

    open spec fn view(&self) -> SpecItem {
        match self {
            Item::Function(f) => SpecItem::Function(f@),
            Item::FunctionDecl(d) => SpecItem::FunctionDecl(d@),
        }
    }
}

#[derive(Debug, PartialEq, Clone)]
pub struct Program {
    pub items: Vec<Item>,
}

pub struct SpecProgram {
    pub items: Seq<SpecItem>,
}

impl View for Program {
    type V = SpecProgram;

    open spec fn view(&self) -> SpecProgram {
        SpecProgram { items: self.items@.map_values(|i: Item| i@) }
    }
}

#[derive(Debug, PartialEq, Clone)]
pub struct DecoratedExpr {
    pub expr: Expr,
    pub inferred_type: Type,
}

#[derive(Debug, PartialEq, Clone)]
pub struct DecoratedStmt {
    pub stmt: Stmt,
    pub inferred_type: Option<Type>,
}

pub struct SpecDecoratedStmt {
    pub stmt: SpecStmt,
    pub inferred_type: Option<Type>,
}

impl View for DecoratedStmt {
    type V = SpecDecoratedStmt;

    open spec fn view(&self) -> SpecDecoratedStmt {
        SpecDecoratedStmt { stmt: self.stmt@, inferred_type: self.inferred_type }
    }
}

#[derive(Debug, PartialEq, Clone)]
pub struct DecoratedFunction {
    pub function: Function,
    pub body: Vec<DecoratedStmt>,
}

pub struct SpecDecoratedFunction {
    pub function: SpecFunction,
    pub body: Seq<SpecDecoratedStmt>,
}

impl View for DecoratedFunction {
    type V = SpecDecoratedFunction;

    open spec fn view(&self) -> SpecDecoratedFunction {
        SpecDecoratedFunction {
            function: self.function@,
            body: self.body@.map_values(|d: DecoratedStmt| d@),
        }
    }
}

#[derive(Debug, PartialEq, Clone)]
pub enum DecoratedItem {
    Function(DecoratedFunction),
    FunctionDecl(FunctionDecl),
}

pub enum SpecDecoratedItem {
    Function(SpecDecoratedFunction),
    FunctionDecl(SpecFunctionDecl),
}

impl View for DecoratedItem {
    type V = SpecDecoratedItem;

    open spec fn view(&self) -> SpecDecoratedItem {
        match self {
            DecoratedItem::Function(f) => SpecDecoratedItem::Function(f@),
            DecoratedItem::FunctionDecl(d) => SpecDecoratedItem::FunctionDecl(d@),
        }
    }
}

/// A program that passed semantic analysis, with the type inferred for each
/// top-level statement of each function and the table of global symbols
/// (each function name with its return type, in declaration order).
#[derive(Debug, PartialEq, Clone)]
pub struct DecoratedProgram {
    pub items: Vec<DecoratedItem>,
    pub symbol_table: Vec<(String, Type)>,
}

pub struct SpecDecoratedProgram {
    pub items: Seq<SpecDecoratedItem>,
    pub symbol_table: Seq<(Seq<char>, Type)>,
}

impl View for DecoratedProgram {
    type V = SpecDecoratedProgram;

    open spec fn view(&self) -> SpecDecoratedProgram {
        SpecDecoratedProgram {
            items: self.items@.map_values(|i: DecoratedItem| i@),
            symbol_table: self.symbol_table@.map_values(|e: (String, Type)| (e.0@, e.1)),
        }
    }
}

// ---------------------------------------------------------------------------
// Copies
// ---------------------------------------------------------------------------

/// A copy of an expression.
pub(crate) fn copy_expr(e: &Expr) -> (r: Expr)
    ensures
        r@ == e@,
    decreases e,
{
    match e {
        Expr::IntegerLit(v) => Expr::IntegerLit(*v),
        Expr::CharLit(c) => Expr::CharLit(*c),
        Expr::StringLit(s) => Expr::StringLit(s.clone()),
        Expr::Identifier(s) => Expr::Identifier(s.clone()),
        Expr::Assignment { target, op, value } => Expr::Assignment {
            target: Box::new(copy_expr(&**target)),
            op: op.clone(),
            value: Box::new(copy_expr(&**value)),
        },
        Expr::BinaryOp { left, op, right } => Expr::BinaryOp {
            left: Box::new(copy_expr(&**left)),
            op: op.clone(),
            right: Box::new(copy_expr(&**right)),
        },
        Expr::UnaryOp { op, expr } => Expr::UnaryOp { op: op.clone(), expr: Box::new(copy_expr(&**expr)) },
        Expr::FunCall { callee, args } => Expr::FunCall { callee: callee.clone(), args: copy_exprs(args) },
    }
}

/// A copy of a list of expressions.
pub(crate) fn copy_exprs(v: &Vec<Expr>) -> (r: Vec<Expr>)
    ensures
        exprs_view(r@) == exprs_view(v@),
    decreases v,
{
    let mut r: Vec<Expr> = Vec::new();
    let mut i: usize = 0;
    proof {
        lemma_exprs_view(v@);
        assert(exprs_view(v@.subrange(0, 0)) =~= exprs_view(r@));
    }
    while i < v.len()
        invariant
            i <= v@.len(),
            exprs_view(r@) == exprs_view(v@.subrange(0, i as int)),
        decreases v@.len() - i,
    {
        proof {
            assert(decreases_to!(*v => v@));
            assert(decreases_to!(v@ => v@[i as int]));
        }
        let e = copy_expr(&v[i]);
        proof {
            lemma_exprs_view_push(r@, e);
            lemma_exprs_view_push(v@.subrange(0, i as int), v@[i as int]);
            assert(v@.subrange(0, i as int).push(v@[i as int]) =~= v@.subrange(0, i + 1));
        }
        r.push(e);
        i = i + 1;
    }
    assert(v@.subrange(0, v@.len() as int) =~= v@);
    r
}

pub(crate) fn copy_opt_expr(e: &Option<Expr>) -> (r: Option<Expr>)
    ensures
        opt_expr_view(r) == opt_expr_view(*e),
{
    match e {
        Some(e) => Some(copy_expr(e)),
        None => None,
    }
}

/// A copy of a statement.
pub(crate) fn copy_stmt(s: &Stmt) -> (r: Stmt)
    ensures
        r@ == s@,
    decreases s,
{
    match s {
        Stmt::VarDeclaration { varType, name, value } => Stmt::VarDeclaration {
            varType: *varType,
            name: name.clone(),
            value: copy_opt_expr(value),
        },
        Stmt::ReturnStmt(v) => Stmt::ReturnStmt(copy_opt_expr(v)),
        Stmt::Expr(e) => Stmt::Expr(copy_expr(e)),
        Stmt::Block(b) => Stmt::Block(copy_stmts(b)),
        Stmt::If { condition, b_then, b_else } => Stmt::If {
            condition: copy_expr(condition),
            b_then: Box::new(copy_stmt(&**b_then)),
            b_else: match b_else {
                Some(b) => Some(Box::new(copy_stmt(&**b))),
                None => None,
            },
        },
        Stmt::While { condition, body } => Stmt::While {
            condition: copy_expr(condition),
            body: Box::new(copy_stmt(&**body)),
        },
        Stmt::DoWhile { body, condition } => Stmt::DoWhile {
            body: Box::new(copy_stmt(&**body)),
            condition: copy_expr(condition),
        },
        Stmt::For { init, condition, update, body } => Stmt::For {
            init: match init {
                Some(i) => Some(Box::new(copy_stmt(&**i))),
                None => None,
            },
            condition: copy_expr(condition),
            update: copy_opt_expr(update),
            body: Box::new(copy_stmt(&**body)),
        },
        Stmt::Switch { cond, cases } => Stmt::Switch { cond: copy_expr(cond), cases: copy_cases(cases) },
        Stmt::Break => Stmt::Break,
        Stmt::Continue => Stmt::Continue,
    }
}

/// A copy of a list of statements.
pub(crate) fn copy_stmts(v: &Vec<Stmt>) -> (r: Vec<Stmt>)
    ensures
        stmts_view(r@) == stmts_view(v@),
    decreases v,
{
    let mut r: Vec<Stmt> = Vec::new();
    let mut i: usize = 0;
    proof {
        assert(stmts_view(v@.subrange(0, 0)) =~= stmts_view(r@));
    }
    while i < v.len()
        invariant
            i <= v@.len(),
            stmts_view(r@) == stmts_view(v@.subrange(0, i as int)),
        decreases v@.len() - i,
    {
        proof {
            assert(decreases_to!(*v => v@));
            assert(decreases_to!(v@ => v@[i as int]));
        }
        let e = copy_stmt(&v[i]);
        proof {
            lemma_stmts_view_push(r@, e);
            lemma_stmts_view_push(v@.subrange(0, i as int), v@[i as int]);
            assert(v@.subrange(0, i as int).push(v@[i as int]) =~= v@.subrange(0, i + 1));
        }
        r.push(e);
        i = i + 1;
    }
    assert(v@.subrange(0, v@.len() as int) =~= v@);
    r
}

/// A copy of the cases of a switch.
pub(crate) fn copy_cases(v: &Vec<SwitchCase>) -> (r: Vec<SwitchCase>)
    ensures
        cases_view(r@) == cases_view(v@),
    decreases v,
{
    let mut r: Vec<SwitchCase> = Vec::new();
    let mut i: usize = 0;
    proof {
        assert(cases_view(v@.subrange(0, 0)) =~= cases_view(r@));
    }
    while i < v.len()
        invariant
            i <= v@.len(),
            cases_view(r@) == cases_view(v@.subrange(0, i as int)),
        decreases v@.len() - i,
    {
        proof {
            assert(decreases_to!(*v => v@));
            assert(decreases_to!(v@ => v@[i as int]));
        }
        let e = SwitchCase { value: copy_opt_expr(&v[i].value), body: copy_stmts(&v[i].body) };
        proof {
            lemma_cases_view_push(r@, e);
            lemma_cases_view_push(v@.subrange(0, i as int), v@[i as int]);
            assert(v@.subrange(0, i as int).push(v@[i as int]) =~= v@.subrange(0, i + 1));
        }
        r.push(e);
        i = i + 1;
    }
    assert(v@.subrange(0, v@.len() as int) =~= v@);
    r
}

/// A copy of a parameter list.
pub(crate) fn copy_params(v: &Vec<Param>) -> (r: Vec<Param>)
    ensures
        params_view(r@) == params_view(v@),
{
    let mut r: Vec<Param> = Vec::new();
    let mut i: usize = 0;
    while i < v.len()
        invariant
            i <= v@.len(),
            r@.len() == i,
            forall|k: int| 0 <= k < i ==> (#[trigger] r@[k])@ == v@[k]@,
        decreases v@.len() - i,
    {
        r.push(Param { param_type: v[i].param_type, name: v[i].name.clone() });
        i = i + 1;
    }
    assert(params_view(r@) =~= params_view(v@));
    r
}

/// A copy of a function definition.
pub(crate) fn copy_function(f: &Function) -> (r: Function)
    ensures
        r@ == f@,
{
    Function {
        ret_type: f.ret_type,
        name: f.name.clone(),
        params: copy_params(&f.params),
        body: copy_stmts(&f.body),
    }
}

/// A copy of a function declaration.
pub(crate) fn copy_function_decl(d: &FunctionDecl) -> (r: FunctionDecl)
    ensures
        r@ == d@,
{
    FunctionDecl { ret_type: d.ret_type, name: d.name.clone(), params: copy_params(&d.params) }
}

impl Clone for Expr {
    /// A copy of the expression.
    fn clone(&self) -> (r: Self)
        ensures
            r@ == self@,
    {
        copy_expr(self)
    }
}

impl Clone for Stmt {
    /// A copy of the statement.
    fn clone(&self) -> (r: Self)
        ensures
            r@ == self@,
    {
        copy_stmt(self)
    }
}

impl Clone for SwitchCase {
    /// A copy of the case.
    fn clone(&self) -> (r: Self)
        ensures
            r@ == self@,
    {
        SwitchCase { value: copy_opt_expr(&self.value), body: copy_stmts(&self.body) }
    }
}

} // verus!
