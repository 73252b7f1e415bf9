use vstd::prelude::*;
use crate::ast::{
    type_label, Type, Expr, SpecExpr, SpecStmt, Stmt, SwitchCase, Param, Function, Item, Program,
    DecoratedStmt, DecoratedFunction, DecoratedItem, DecoratedProgram, SpecDecoratedProgram, SpecParam,
    exprs_view, lemma_exprs_view, stmts_view, lemma_stmts_view, cases_view, lemma_cases_view,
    opt_expr_view, params_view, copy_stmt, copy_function, copy_function_decl,
};
use crate::semantics;
use crate::semantics::{
    SpecKind, SpecSymbol, AnalysisState, CheckContext, scope_find, env_lookup, declare, expr_type,
    expr_errors, args_errors, call_errors, call_type, one_if, stmt_type, stmt_always_returns,
    any_returns, function_entry, decorate_stmts, declare_params, signature_symbol,
    declare_items, check_items, decorate_items, initial_state, symbol_table, spec_analyze,
    msg_redeclaration, msg_undeclared_identifier, msg_assignment_mismatch, msg_binary_mismatch,
    msg_arity, msg_argument, msg_not_a_function, msg_undeclared_function, msg_return_mismatch,
    msg_missing_return_value, msg_may_not_return, names_distinct, scopes_distinct, contains_return,
    stmts_contain_return, cases_contain_return, case_contains_return, lemma_stmts_without_return,
    lemma_cases_without_return, check_function_in,
    lemma_declare_keeps_names_distinct,
};
use crate::text::decimal_text;

verus! {

/// What a declared name stands for.
enum Kind {
    Variable,
    Function { params: Vec<Type>, return_value: Type },
    Parameter,
}

/// A declared name with its type.
struct Symbol {
    name: String,
    ty: Type,
    kind: Kind,
}

/// The mathematical model of a symbol's kind.
spec fn kind_view(k: Kind) -> SpecKind {
    match k {
        Kind::Variable => SpecKind::Variable,
        Kind::Function { params, return_value } => SpecKind::Function { params: params@, return_value },
        Kind::Parameter => SpecKind::Parameter,
    }
}

/// The mathematical model of a symbol.
spec fn symbol_view(s: Symbol) -> SpecSymbol {
    SpecSymbol { name: s.name@, ty: s.ty, kind: kind_view(s.kind) }
}

/// The mathematical model of a scope.
spec fn scope_view(scope: Seq<Symbol>) -> Seq<SpecSymbol> {
    scope.map_values(|s: Symbol| symbol_view(s))
}

/// Checks a program's names, types and control flow, collecting diagnostics.
pub struct SemanticAnalyzer {
    errors: Vec<String>,
    scopes: Vec<Vec<Symbol>>,
    current_return_type: Option<Type>,
    in_loop: bool,
    in_switch: bool,
}

impl SemanticAnalyzer {
    /// The scopes, innermost last.
    pub closed spec fn scopes_view(&self) -> Seq<Seq<SpecSymbol>> {
        self.scopes@.map_values(|v: Vec<Symbol>| scope_view(v@))
    }

    /// The diagnostics reported so far.
    pub closed spec fn errors_view(&self) -> Seq<Seq<char>> {
        self.errors@.map_values(|s: String| s@)
    }

    /// The scopes and diagnostics, as the analysis rules speak of them.
    pub closed spec fn state(&self) -> AnalysisState {
        AnalysisState { scopes: self.scopes_view(), errors: self.errors_view() }
    }

    /// No function is being checked: there is no return type to check
    /// against, and no enclosing loop or switch.
    pub closed spec fn outside_function(&self) -> bool {
        &&& self.current_return_type is None
        &&& !self.in_loop
        &&& !self.in_switch
    }

    /// There is always a global scope, and no scope declares a name twice.
    pub closed spec fn wf(&self) -> bool {
        &&& self.scopes@.len() >= 1
        &&& scopes_distinct(self.scopes_view())
    }

    /// An analyser with one empty global scope and no diagnostic.
    pub fn new() -> (r: Self)
        ensures
            r.wf(),
            r.state() == crate::semantics::initial_state(),
            r.outside_function(),
    {
        let mut scopes: Vec<Vec<Symbol>> = Vec::new();
        scopes.push(Vec::new());
        let r = SemanticAnalyzer {
            errors: Vec::new(),
            scopes,
            current_return_type: None,
            in_loop: false,
            in_switch: false,
        };
        assert(r.scopes_view() =~~= seq![Seq::<SpecSymbol>::empty()]);
        assert(r.errors_view() =~= Seq::<Seq<char>>::empty());
        assert(names_distinct(r.scopes_view()[0]));
        r
    }

    fn push_scope(&mut self)
        requires
            old(self).wf(),
        ensures
            final(self).wf(),
            final(self).scopes_view() == old(self).scopes_view().push(Seq::empty()),
            final(self).scopes@.len() == old(self).scopes@.len() + 1,
            final(self).errors == old(self).errors,
            final(self).current_return_type == old(self).current_return_type,
            final(self).in_loop == old(self).in_loop,
            final(self).in_switch == old(self).in_switch,
    {
        self.scopes.push(Vec::new());
        assert(self.scopes_view() =~~= old(self).scopes_view().push(Seq::empty()));
        assert(names_distinct(self.scopes_view().last()));
    }

    fn pop_scope(&mut self)
        requires
            old(self).wf(),
            old(self).scopes@.len() >= 2,
        ensures
            final(self).wf(),
            final(self).scopes_view() == old(self).scopes_view().drop_last(),
            final(self).scopes@.len() == old(self).scopes@.len() - 1,
            final(self).errors == old(self).errors,
            final(self).current_return_type == old(self).current_return_type,
            final(self).in_loop == old(self).in_loop,
            final(self).in_switch == old(self).in_switch,
    {
        let _ = self.scopes.pop();
        assert(self.scopes_view() =~= old(self).scopes_view().drop_last());
    }

    fn error(&mut self, msg: String)
        ensures
            final(self).errors_view() == old(self).errors_view().push(msg@),
            final(self).scopes == old(self).scopes,
            final(self).current_return_type == old(self).current_return_type,
            final(self).in_loop == old(self).in_loop,
            final(self).in_switch == old(self).in_switch,
    {
        self.errors.push(msg);
        assert(self.errors_view() =~= old(self).errors_view().push(msg@));
    }

    /// Where `name` is declared in the scope at `index`, if it is.
    fn find_in_scope(&self, index: usize, name: &String) -> (r: Option<usize>)
        requires
            index < self.scopes@.len(),
        ensures
            match r {
                Some(j) => j < self.scopes@[index as int]@.len() && scope_find(
                    self.scopes_view()[index as int],
                    name@,
                ) == Some(symbol_view(self.scopes@[index as int]@[j as int])),
                None => scope_find(self.scopes_view()[index as int], name@) is None,
            },
    {
        let scope = &self.scopes[index];
        let ghost sv = self.scopes_view()[index as int];
        assert(sv =~= scope_view(scope@));
        assert(sv.subrange(0, sv.len() as int) =~= sv);
        let mut j: usize = 0;
        while j < scope.len()
            invariant
                j <= scope@.len(),
                index < self.scopes@.len(),
                scope@ == self.scopes@[index as int]@,
                sv == self.scopes_view()[index as int],
                sv == scope_view(scope@),
                scope_find(sv, name@) == scope_find(sv.subrange(j as int, sv.len() as int), name@),
            decreases scope@.len() - j,
        {
            let ghost rest = sv.subrange(j as int, sv.len() as int);
            assert(rest.subrange(1, rest.len() as int) =~= sv.subrange(j + 1, sv.len() as int));
            assert(rest[0] == symbol_view(scope@[j as int]));
            if scope[j].name == *name {
                return Some(j);
            }
            j = j + 1;
        }
        None
    }

    /// The symbol that `name` denotes, searched from the innermost scope out.
    fn lookup(&self, name: &String) -> (r: Option<&Symbol>)
        ensures
            match r {
                Some(sym) => env_lookup(self.scopes_view(), name@) == Some(symbol_view(*sym)),
                None => env_lookup(self.scopes_view(), name@) is None,
            },
    {
        let ghost all = self.scopes_view();
        let mut i: usize = self.scopes.len();
        assert(all.subrange(0, all.len() as int) =~= all);
        while i > 0
            invariant
                i <= self.scopes@.len(),
                all == self.scopes_view(),
                env_lookup(all, name@) == env_lookup(all.subrange(0, i as int), name@),
            decreases i,
        {
            let ghost prefix = all.subrange(0, i as int);
            assert(prefix.drop_last() =~= all.subrange(0, i - 1));
            match self.find_in_scope(i - 1, name) {
                Some(j) => {
                    return Some(&self.scopes[i - 1][j]);
                },
                None => {},
            }
            i = i - 1;
        }
        None
    }

    /// Declares `symbol` under `name` in the innermost scope, or reports a
    /// redeclaration when that scope already has the name.
    fn declare(&mut self, name: String, symbol: Symbol)
        requires
            old(self).wf(),
            symbol.name@ == name@,
        ensures
            final(self).wf(),
            final(self).scopes@.len() == old(self).scopes@.len(),
            final(self).state() == declare(old(self).state(), name@, symbol_view(symbol)),
            final(self).current_return_type == old(self).current_return_type,
            final(self).in_loop == old(self).in_loop,
            final(self).in_switch == old(self).in_switch,
    {
        let last = self.scopes.len() - 1;
        proof {
            lemma_declare_keeps_names_distinct(self.state(), name@, symbol_view(symbol));
        }
        match self.find_in_scope(last, &name) {
            Some(_) => {
                let msg = redeclaration_message(&name);
                self.error(msg);
            },
            None => {
                let ghost old_view = self.scopes_view();
                let mut current = self.scopes.pop().unwrap();
                current.push(symbol);
                self.scopes.push(current);
                assert(scope_view(current@) =~= old_view.last().push(symbol_view(symbol)));
                assert(self.scopes_view() =~= old_view.update(
                    old_view.len() - 1,
                    old_view.last().push(symbol_view(symbol)),
                ));
            },
        }
    }
}

impl SemanticAnalyzer {
    /// Checks an expression, reporting what is wrong in it, and returns its type.
    fn check_expr(&mut self, expr: &Expr) -> (t: Type)
        ensures
            final(self).scopes == old(self).scopes,
            final(self).current_return_type == old(self).current_return_type,
            final(self).in_loop == old(self).in_loop,
            final(self).in_switch == old(self).in_switch,
            final(self).errors_view() == old(self).errors_view() + expr_errors(old(self).scopes_view(), expr@),
            t == expr_type(old(self).scopes_view(), expr@),
        decreases expr,
    {
        let ghost scopes = self.scopes_view();
        let ghost e0 = self.errors_view();
        match expr {
            Expr::IntegerLit(_) => {
                assert(self.errors_view() =~= e0 + expr_errors(scopes, expr@));
                Type::Int
            },
            Expr::CharLit(_) => {
                assert(self.errors_view() =~= e0 + expr_errors(scopes, expr@));
                Type::Char
            },
            Expr::StringLit(_) => {
                assert(self.errors_view() =~= e0 + expr_errors(scopes, expr@));
                Type::String
            },
            Expr::Identifier(name) => {
                let found: Option<Type> = match self.lookup(name) {
                    Some(sym) => Some(sym.ty),
                    None => None,
                };
                match found {
                    Some(ty) => {
                        assert(self.errors_view() =~= e0 + expr_errors(scopes, expr@));
                        ty
                    },
                    None => {
                        self.error(undeclared_identifier_message(name));
                        assert(self.errors_view() =~= e0 + expr_errors(scopes, expr@));
                        Type::Int
                    },
                }
            },
            Expr::Assignment { target, op: _, value } => {
                let is_variable = match &**target {
                    Expr::Identifier(_) => true,
                    _ => false,
                };
                if !is_variable {
                    self.error(String::from_str("Left-hand side of assignment must be a variable"));
                }
                let ghost e1 = self.errors_view();
                let target_ty = self.check_expr(&**target);
                let value_ty = self.check_expr(&**value);
                if target_ty != value_ty {
                    self.error(assignment_mismatch_message(value_ty, target_ty));
                }
                assert(self.errors_view() =~= e0 + expr_errors(scopes, expr@));
                target_ty
            },
            Expr::BinaryOp { left, op: _, right } => {
                let left_ty = self.check_expr(&**left);
                let right_ty = self.check_expr(&**right);
                if left_ty != right_ty {
                    self.error(binary_mismatch_message(left_ty, right_ty));
                }
                assert(self.errors_view() =~= e0 + expr_errors(scopes, expr@));
                left_ty
            },
            Expr::UnaryOp { op: _, expr: operand } => self.check_expr(&**operand),
            Expr::FunCall { callee, args } => self.check_call(callee, args),
        }
    }

    /// Checks a call of `callee` with `args` and returns its type.
    fn check_call(&mut self, callee: &String, args: &Vec<Expr>) -> (t: Type)
        ensures
            final(self).scopes == old(self).scopes,
            final(self).current_return_type == old(self).current_return_type,
            final(self).in_loop == old(self).in_loop,
            final(self).in_switch == old(self).in_switch,
            final(self).errors_view() == old(self).errors_view() + call_errors(
                old(self).scopes_view(),
                callee@,
                exprs_view(args@),
            ),
            t == call_type(old(self).scopes_view(), callee@),
        decreases args,
    {
        let ghost scopes = self.scopes_view();
        let ghost e0 = self.errors_view();
        let ghost sargs = exprs_view(args@);
        let resolved: Option<Option<(Vec<Type>, Type)>> = match self.lookup(callee) {
            Some(sym) => match &sym.kind {
                Kind::Function { params, return_value } => Some(Some((copy_types(params), *return_value))),
                _ => Some(None),
            },
            None => None,
        };
        match resolved {
            Some(Some((params, return_value))) => {
                proof {
                    lemma_exprs_view(args@);
                }
                if params.len() != args.len() {
                    self.error(arity_message(callee, params.len(), args.len()));
                }
                let ghost e1 = self.errors_view();
                assert(e1 =~= e0 + one_if(params@.len() != sargs.len(), msg_arity(callee@, params@.len(), sargs.len())));
                assert(sargs.subrange(0, 0) =~= Seq::<SpecExpr>::empty());
                assert(e1 =~= e1 + args_errors(scopes, callee@, params@, sargs.subrange(0, 0)));
                let mut i: usize = 0;
                while i < args.len()
                    invariant
                        i <= args@.len(),
                        sargs == exprs_view(args@),
                        sargs.len() == args@.len(),
                        forall|k: int| 0 <= k < args@.len() ==> sargs[k] == (#[trigger] args@[k])@,
                        self.scopes == old(self).scopes,
                        scopes == self.scopes_view(),
                        self.current_return_type == old(self).current_return_type,
                        self.in_loop == old(self).in_loop,
                        self.in_switch == old(self).in_switch,
                        self.errors_view() == e1 + args_errors(scopes, callee@, params@, sargs.subrange(0, i as int)),
                    decreases args@.len() - i,
                {
                    proof {
                        assert(decreases_to!(*args => args@));
                        assert(decreases_to!(args@ => args@[i as int]));
                    }
                    let arg_ty = self.check_expr(&args[i]);
                    if i < params.len() && params[i] != arg_ty {
                        self.error(argument_message(i + 1, callee, params[i], arg_ty));
                    }
                    assert(sargs.subrange(0, i + 1).drop_last() =~= sargs.subrange(0, i as int));
                    assert(sargs.subrange(0, i + 1)[i as int] == sargs[i as int]);
                    assert(self.errors_view() =~= e1 + args_errors(scopes, callee@, params@, sargs.subrange(0, i + 1)));
                    i = i + 1;
                }
                assert(sargs.subrange(0, args@.len() as int) =~= sargs);
                assert(self.errors_view() =~= e0 + call_errors(scopes, callee@, sargs));
                return_value
            },
            Some(None) => {
                self.error(not_a_function_message(callee));
                assert(self.errors_view() =~= e0 + call_errors(scopes, callee@, sargs));
                Type::Int
            },
            None => {
                self.error(undeclared_function_message(callee));
                assert(self.errors_view() =~= e0 + call_errors(scopes, callee@, sargs));
                Type::Int
            },
        }
    }
}

impl SemanticAnalyzer {
    /// What statements are checked against: the return type of the function
    /// being checked and whether they stand inside a loop or a switch.
    pub closed spec fn context(&self) -> CheckContext {
        CheckContext {
            ret: self.current_return_type.unwrap(),
            in_loop: self.in_loop,
            in_switch: self.in_switch,
        }
    }

    /// Checks a statement, reporting what is wrong in it, and returns the
    /// type recorded for it.
    fn check_stmt(&mut self, stmt: &Stmt) -> (inferred: Option<Type>)
        requires
            old(self).wf(),
            old(self).current_return_type is Some || !contains_return(stmt@),
        ensures
            final(self).wf(),
            final(self).scopes@.len() == old(self).scopes@.len(),
            final(self).state() == semantics::check_stmt(old(self).state(), old(self).context(), stmt@),
            final(self).current_return_type == old(self).current_return_type,
            final(self).in_loop == old(self).in_loop,
            final(self).in_switch == old(self).in_switch,
            inferred == stmt_type(old(self).scopes_view(), stmt@),
        decreases stmt,
    {
        match stmt {
            Stmt::VarDeclaration { varType, name, value } => {
                self.check_var_declaration(*varType, name, value);
                None
            },
            Stmt::ReturnStmt(value) => {
                let expected = self.current_return_type.unwrap();
                match value {
                    Some(e) => {
                        let actual = self.check_expr(e);
                        if actual != expected {
                            self.error(return_mismatch_message(expected, actual));
                        }
                        Some(actual)
                    },
                    None => {
                        self.error(missing_return_value_message(expected));
                        None
                    },
                }
            },
            Stmt::Expr(e) => Some(self.check_expr(e)),
            Stmt::Block(stmts) => {
                self.push_scope();
                self.check_stmt_list(stmts);
                self.pop_scope();
                None
            },
            Stmt::If { condition, b_then, b_else } => {
                self.check_expr(condition);
                self.check_stmt(&**b_then);
                match b_else {
                    Some(b) => {
                        self.check_stmt(&**b);
                    },
                    None => {},
                }
                None
            },
            Stmt::While { condition, body } => {
                self.check_expr(condition);
                let saved = self.in_loop;
                self.in_loop = true;
                self.check_stmt(&**body);
                self.in_loop = saved;
                None
            },
            Stmt::DoWhile { body, condition } => {
                let saved = self.in_loop;
                self.in_loop = true;
                self.check_stmt(&**body);
                self.in_loop = saved;
                self.check_expr(condition);
                None
            },
            Stmt::For { init, condition, update, body } => {
                self.push_scope();
                match init {
                    Some(i) => {
                        self.check_stmt(&**i);
                    },
                    None => {},
                }
                self.check_expr(condition);
                match update {
                    Some(u) => {
                        self.check_expr(u);
                    },
                    None => {},
                }
                let saved = self.in_loop;
                self.in_loop = true;
                self.check_stmt(&**body);
                self.in_loop = saved;
                self.pop_scope();
                None
            },
            Stmt::Switch { cond, cases } => {
                self.check_expr(cond);
                let saved = self.in_switch;
                self.in_switch = true;
                self.check_case_list(cases);
                self.in_switch = saved;
                None
            },
            Stmt::Break => {
                if !self.in_loop && !self.in_switch {
                    self.error(String::from_str("'break' used outside of a loop or switch"));
                }
                None
            },
            Stmt::Continue => {
                if !self.in_loop {
                    self.error(String::from_str("'continue' used outside of a loop"));
                }
                None
            },
        }
    }

    /// Checks the initial value of a variable, then declares the variable.
    fn check_var_declaration(&mut self, var_type: Type, name: &String, value: &Option<Expr>)
        requires
            old(self).wf(),
        ensures
            final(self).wf(),
            final(self).scopes@.len() == old(self).scopes@.len(),
            final(self).state() == declare(
                semantics::check_opt_expr(old(self).state(), opt_expr_view(*value)),
                name@,
                SpecSymbol { name: name@, ty: var_type, kind: SpecKind::Variable },
            ),
            final(self).current_return_type == old(self).current_return_type,
            final(self).in_loop == old(self).in_loop,
            final(self).in_switch == old(self).in_switch,
    {
        match value {
            Some(e) => {
                self.check_expr(e);
            },
            None => {},
        }
        let symbol = Symbol { name: name.clone(), ty: var_type, kind: Kind::Variable };
        self.declare(name.clone(), symbol);
    }

    /// Checks statements one after the other, in the current scope.
    fn check_stmt_list(&mut self, stmts: &Vec<Stmt>)
        requires
            old(self).wf(),
            old(self).current_return_type is Some || !stmts_contain_return(stmts_view(stmts@)),
        ensures
            final(self).wf(),
            final(self).scopes@.len() == old(self).scopes@.len(),
            final(self).state() == semantics::check_stmts(old(self).state(), old(self).context(), stmts_view(stmts@)),
            final(self).current_return_type == old(self).current_return_type,
            final(self).in_loop == old(self).in_loop,
            final(self).in_switch == old(self).in_switch,
        decreases stmts,
    {
        let ghost st0 = self.state();
        let ghost ctx = self.context();
        let ghost sv = stmts_view(stmts@);
        proof {
            lemma_stmts_view(stmts@);
            assert(sv.subrange(0, 0) =~= Seq::<crate::ast::SpecStmt>::empty());
            if self.current_return_type is None {
                lemma_stmts_without_return(sv);
            }
        }
        let mut i: usize = 0;
        while i < stmts.len()
            invariant
                i <= stmts@.len(),
                sv == stmts_view(stmts@),
                sv.len() == stmts@.len(),
                forall|k: int| 0 <= k < stmts@.len() ==> sv[k] == (#[trigger] stmts@[k])@,
                self.wf(),
                self.scopes@.len() == old(self).scopes@.len(),
                self.current_return_type == old(self).current_return_type,
                self.current_return_type is Some || forall|k: int|
                    0 <= k < sv.len() ==> !contains_return(#[trigger] sv[k]),
                self.in_loop == old(self).in_loop,
                self.in_switch == old(self).in_switch,
                ctx == self.context(),
                self.state() == semantics::check_stmts(st0, ctx, sv.subrange(0, i as int)),
            decreases stmts@.len() - i,
        {
            proof {
                assert(decreases_to!(*stmts => stmts@));
                assert(decreases_to!(stmts@ => stmts@[i as int]));
            }
            self.check_stmt(&stmts[i]);
            assert(sv.subrange(0, i + 1).drop_last() =~= sv.subrange(0, i as int));
            assert(sv.subrange(0, i + 1).last() == sv[i as int]);
            i = i + 1;
        }
        assert(sv.subrange(0, stmts@.len() as int) =~= sv);
    }

    /// Checks the cases of a switch one after the other: each value, then
    /// each statement.
    fn check_case_list(&mut self, cases: &Vec<SwitchCase>)
        requires
            old(self).wf(),
            old(self).current_return_type is Some || !cases_contain_return(cases_view(cases@)),
        ensures
            final(self).wf(),
            final(self).scopes@.len() == old(self).scopes@.len(),
            final(self).state() == semantics::check_cases(old(self).state(), old(self).context(), cases_view(cases@)),
            final(self).current_return_type == old(self).current_return_type,
            final(self).in_loop == old(self).in_loop,
            final(self).in_switch == old(self).in_switch,
        decreases cases,
    {
        let ghost st0 = self.state();
        let ghost ctx = self.context();
        let ghost cv = cases_view(cases@);
        proof {
            lemma_cases_view(cases@);
            assert(cv.subrange(0, 0) =~= Seq::<crate::ast::SpecSwitchCase>::empty());
            if self.current_return_type is None {
                lemma_cases_without_return(cv);
            }
        }
        let mut i: usize = 0;
        while i < cases.len()
            invariant
                i <= cases@.len(),
                cv == cases_view(cases@),
                cv.len() == cases@.len(),
                forall|k: int| 0 <= k < cases@.len() ==> cv[k] == (#[trigger] cases@[k])@,
                self.wf(),
                self.scopes@.len() == old(self).scopes@.len(),
                self.current_return_type == old(self).current_return_type,
                self.current_return_type is Some || forall|k: int|
                    0 <= k < cv.len() ==> !case_contains_return(#[trigger] cv[k]),
                self.in_loop == old(self).in_loop,
                self.in_switch == old(self).in_switch,
                ctx == self.context(),
                self.state() == semantics::check_cases(st0, ctx, cv.subrange(0, i as int)),
            decreases cases@.len() - i,
        {
            proof {
                assert(decreases_to!(*cases => cases@));
                assert(decreases_to!(cases@ => cases@[i as int]));
            }
            let case = &cases[i];
            let ghost before = self.state();
            match &case.value {
                Some(v) => {
                    self.check_expr(v);
                },
                None => {},
            }
            assert(self.state() == semantics::check_opt_expr(before, cv[i as int].value));
            self.check_stmt_list(&case.body);
            assert(self.state() == semantics::check_case(before, ctx, cv[i as int]));
            assert(cv.subrange(0, i + 1).drop_last() =~= cv.subrange(0, i as int));
            assert(cv.subrange(0, i + 1).last() == cv[i as int]);
            i = i + 1;
        }
        assert(cv.subrange(0, cases@.len() as int) =~= cv);
    }
}

impl SemanticAnalyzer {
    /// Whether a statement returns on every path through it.
    fn stmt_always_returns(stmt: &Stmt) -> (r: bool)
        ensures
            r == stmt_always_returns(stmt@),
        decreases stmt,
    {
        match stmt {
            Stmt::ReturnStmt(_) => true,
            Stmt::Block(stmts) => Self::any_stmt_returns(stmts),
            Stmt::If { b_then, b_else, .. } => match b_else {
                Some(b_else) => Self::stmt_always_returns(&**b_then) && Self::stmt_always_returns(&**b_else),
                None => false,
            },
            Stmt::VarDeclaration { .. }
            | Stmt::Expr(_)
            | Stmt::While { .. }
            | Stmt::DoWhile { .. }
            | Stmt::For { .. }
            | Stmt::Switch { .. }
            | Stmt::Break
            | Stmt::Continue => false,
        }
    }

    /// Whether some statement of the list returns on every path.
    fn any_stmt_returns(stmts: &Vec<Stmt>) -> (r: bool)
        ensures
            r == any_returns(stmts_view(stmts@)),
        decreases stmts,
    {
        let ghost sv = stmts_view(stmts@);
        proof {
            lemma_stmts_view(stmts@);
            assert(sv.subrange(0, 0) =~= Seq::<SpecStmt>::empty());
        }
        let mut found = false;
        let mut i: usize = 0;
        while i < stmts.len()
            invariant
                i <= stmts@.len(),
                sv == stmts_view(stmts@),
                sv.len() == stmts@.len(),
                forall|k: int| 0 <= k < stmts@.len() ==> sv[k] == (#[trigger] stmts@[k])@,
                found == any_returns(sv.subrange(0, i as int)),
            decreases stmts@.len() - i,
        {
            proof {
                assert(decreases_to!(*stmts => stmts@));
                assert(decreases_to!(stmts@ => stmts@[i as int]));
                assert(sv.subrange(0, i + 1).drop_last() =~= sv.subrange(0, i as int));
                assert(sv.subrange(0, i + 1).last() == sv[i as int]);
            }
            if !found {
                found = Self::stmt_always_returns(&stmts[i]);
            }
            i = i + 1;
        }
        assert(sv.subrange(0, stmts@.len() as int) =~= sv);
        found
    }

    /// Declares a function's name with its signature in the current scope.
    fn declare_function_signature(&mut self, name: &String, ret_type: Type, params: &Vec<Param>)
        requires
            old(self).wf(),
        ensures
            final(self).wf(),
            final(self).scopes@.len() == old(self).scopes@.len(),
            final(self).state() == declare(old(self).state(), name@, signature_symbol(name@, ret_type, params_view(params@))),
            final(self).current_return_type == old(self).current_return_type,
            final(self).in_loop == old(self).in_loop,
            final(self).in_switch == old(self).in_switch,
    {
        let mut types: Vec<Type> = Vec::new();
        let mut i: usize = 0;
        while i < params.len()
            invariant
                i <= params@.len(),
                types@.len() == i,
                forall|k: int| 0 <= k < i ==> #[trigger] types@[k] == params@[k].param_type,
            decreases params@.len() - i,
        {
            types.push(params[i].param_type);
            i = i + 1;
        }
        assert(types@ =~= params_view(params@).map_values(|p: SpecParam| p.param_type));
        let symbol = Symbol {
            name: name.clone(),
            ty: ret_type,
            kind: Kind::Function { params: types, return_value: ret_type },
        };
        self.declare(name.clone(), symbol);
    }

    /// Checks a function definition: its parameters, then its body in their
    /// scope, then that it returns on every path. Returns the body with the
    /// type recorded for each statement.
    fn check_function(&mut self, func: &Function) -> (body: Vec<DecoratedStmt>)
        requires
            old(self).wf(),
        ensures
            final(self).wf(),
            final(self).scopes@.len() == old(self).scopes@.len(),
            final(self).state() == check_function_in(
                old(self).state(),
                func@,
                CheckContext { ret: func@.ret_type, in_loop: old(self).in_loop, in_switch: old(self).in_switch },
            ),
            body@.map_values(|d: DecoratedStmt| d@) == decorate_stmts(
                function_entry(old(self).state(), func@),
                CheckContext { ret: func@.ret_type, in_loop: old(self).in_loop, in_switch: old(self).in_switch },
                func@.body,
            ),
            final(self).current_return_type is None,
            final(self).in_loop == old(self).in_loop,
            final(self).in_switch == old(self).in_switch,
    {
        let ghost st0 = self.state();
        let ghost pv = params_view(func.params@);
        self.push_scope();
        self.current_return_type = Some(func.ret_type);
        assert(pv.subrange(0, 0) =~= Seq::<SpecParam>::empty());
        let mut i: usize = 0;
        while i < func.params.len()
            invariant
                i <= func.params@.len(),
                pv == params_view(func.params@),
                self.wf(),
                self.scopes@.len() == old(self).scopes@.len() + 1,
                self.current_return_type == Some(func.ret_type),
                self.in_loop == old(self).in_loop,
                self.in_switch == old(self).in_switch,
                self.state() == declare_params(semantics::push_scope(st0), pv.subrange(0, i as int)),
            decreases func.params@.len() - i,
        {
            let param = &func.params[i];
            let symbol = Symbol { name: param.name.clone(), ty: param.param_type, kind: Kind::Parameter };
            self.declare(param.name.clone(), symbol);
            assert(pv.subrange(0, i + 1).drop_last() =~= pv.subrange(0, i as int));
            assert(pv.subrange(0, i + 1).last() == pv[i as int]);
            i = i + 1;
        }
        assert(pv.subrange(0, pv.len() as int) =~= pv);
        let ghost entry = self.state();
        let ghost ctx = CheckContext { ret: func@.ret_type, in_loop: old(self).in_loop, in_switch: old(self).in_switch };
        let ghost bv = stmts_view(func.body@);
        assert(entry == function_entry(st0, func@));
        assert(ctx == self.context());
        proof {
            lemma_stmts_view(func.body@);
            assert(bv.subrange(0, 0) =~= Seq::<SpecStmt>::empty());
        }
        let mut decorated: Vec<DecoratedStmt> = Vec::new();
        assert(decorated@.map_values(|d: DecoratedStmt| d@) =~= decorate_stmts(entry, ctx, bv.subrange(0, 0)));
        let mut j: usize = 0;
        while j < func.body.len()
            invariant
                j <= func.body@.len(),
                bv == stmts_view(func.body@),
                bv.len() == func.body@.len(),
                forall|k: int| 0 <= k < func.body@.len() ==> bv[k] == (#[trigger] func.body@[k])@,
                self.wf(),
                self.scopes@.len() == old(self).scopes@.len() + 1,
                self.current_return_type == Some(func.ret_type),
                self.in_loop == old(self).in_loop,
                self.in_switch == old(self).in_switch,
                ctx == self.context(),
                self.state() == semantics::check_stmts(entry, ctx, bv.subrange(0, j as int)),
                decorated@.map_values(|d: DecoratedStmt| d@) == decorate_stmts(entry, ctx, bv.subrange(0, j as int)),
            decreases func.body@.len() - j,
        {
            let ghost before = self.state();
            let ghost prev = decorated@;
            let inferred = self.check_stmt(&func.body[j]);
            let d = DecoratedStmt { stmt: copy_stmt(&func.body[j]), inferred_type: inferred };
            decorated.push(d);
            proof {
                let sub = bv.subrange(0, j + 1);
                assert(sub.drop_last() =~= bv.subrange(0, j as int));
                assert(sub.last() == bv[j as int]);
                assert(decorated@ == prev.push(d));
                assert(decorated@.map_values(|d: DecoratedStmt| d@) =~= prev.map_values(|d: DecoratedStmt| d@).push(d@));
            }
            j = j + 1;
        }
        assert(bv.subrange(0, bv.len() as int) =~= bv);
        if !Self::any_stmt_returns(&func.body) {
            self.error(may_not_return_message(&func.name));
        }
        self.current_return_type = None;
        self.pop_scope();
        decorated
    }
}

/// The outcome of an analysis as a mathematical value.
pub open spec fn analysis_view(r: Result<DecoratedProgram, Vec<String>>) -> Result<SpecDecoratedProgram, Seq<Seq<char>>> {
    match r {
        Ok(d) => Ok(d@),
        Err(errs) => Err(errs@.map_values(|s: String| s@)),
    }
}

impl SemanticAnalyzer {
    /// The names of the global scope with their types, in declaration order.
    fn global_symbols(&self) -> (r: Vec<(String, Type)>)
        requires
            self.wf(),
        ensures
            r@.map_values(|e: (String, Type)| (e.0@, e.1)) == symbol_table(self.scopes_view()[0]),
    {
        let scope = &self.scopes[0];
        let ghost sv = self.scopes_view()[0];
        assert(sv == scope_view(scope@));
        let mut r: Vec<(String, Type)> = Vec::new();
        let mut i: usize = 0;
        while i < scope.len()
            invariant
                i <= scope@.len(),
                sv == scope_view(scope@),
                r@.len() == i,
                forall|k: int| 0 <= k < i ==> (#[trigger] r@[k]).0@ == scope@[k].name@ && r@[k].1 == scope@[k].ty,
            decreases scope@.len() - i,
        {
            r.push((scope[i].name.clone(), scope[i].ty));
            i = i + 1;
        }
        assert(r@.map_values(|e: (String, Type)| (e.0@, e.1)) =~= symbol_table(sv));
        r
    }

    /// A copy of the diagnostics reported so far.
    fn copy_errors(&self) -> (r: Vec<String>)
        ensures
            r@.map_values(|s: String| s@) == self.errors_view(),
    {
        let mut r: Vec<String> = Vec::new();
        let mut i: usize = 0;
        while i < self.errors.len()
            invariant
                i <= self.errors@.len(),
                r@.len() == i,
                forall|k: int| 0 <= k < i ==> (#[trigger] r@[k])@ == self.errors@[k]@,
            decreases self.errors@.len() - i,
        {
            r.push(self.errors[i].clone());
            i = i + 1;
        }
        assert(r@.map_values(|s: String| s@) =~= self.errors_view());
        r
    }

    /// Analyses a program: declares the signature of every item in the
    /// global scope, then checks each function definition. Returns the
    /// decorated program when nothing is wrong, else every diagnostic in the
    /// order in which it was reported.
    pub fn analyze(&mut self, program: &Program) -> (r: Result<DecoratedProgram, Vec<String>>)
        ensures
            analysis_view(r) == spec_analyze(program@),
            final(self).wf(),
            final(self).outside_function(),
            final(self).state() == check_items(declare_items(initial_state(), program@.items), program@.items),
    {
        self.errors = Vec::new();
        self.scopes = Vec::new();
        self.scopes.push(Vec::new());
        self.current_return_type = None;
        self.in_loop = false;
        self.in_switch = false;
        assert(self.scopes_view() =~~= initial_state().scopes);
        assert(self.errors_view() =~= initial_state().errors);
        let ghost items = program@.items;
        assert(items.len() == program.items@.len());
        assert(items.subrange(0, 0) =~= Seq::<crate::ast::SpecItem>::empty());
        let mut i: usize = 0;
        while i < program.items.len()
            invariant
                i <= program.items@.len(),
                items == program@.items,
                items.len() == program.items@.len(),
                self.wf(),
                self.scopes@.len() == 1,
                self.current_return_type is None,
                !self.in_loop,
                !self.in_switch,
                self.state() == declare_items(initial_state(), items.subrange(0, i as int)),
            decreases program.items@.len() - i,
        {
            match &program.items[i] {
                Item::Function(func) => self.declare_function_signature(&func.name, func.ret_type, &func.params),
                Item::FunctionDecl(decl) => self.declare_function_signature(&decl.name, decl.ret_type, &decl.params),
            }
            assert(items.subrange(0, i + 1).drop_last() =~= items.subrange(0, i as int));
            assert(items.subrange(0, i + 1).last() == items[i as int]);
            i = i + 1;
        }
        assert(items.subrange(0, items.len() as int) =~= items);
        let symbols = self.global_symbols();
        let ghost declared = self.state();
        let mut decorated: Vec<DecoratedItem> = Vec::new();
        assert(decorated@.map_values(|d: DecoratedItem| d@) =~= decorate_items(declared, items.subrange(0, 0)));
        let mut j: usize = 0;
        while j < program.items.len()
            invariant
                j <= program.items@.len(),
                items == program@.items,
                items.len() == program.items@.len(),
                self.wf(),
                self.scopes@.len() == 1,
                self.current_return_type is None,
                !self.in_loop,
                !self.in_switch,
                self.state() == check_items(declared, items.subrange(0, j as int)),
                decorated@.map_values(|d: DecoratedItem| d@) == decorate_items(declared, items.subrange(0, j as int)),
            decreases program.items@.len() - j,
        {
            let ghost prev = decorated@;
            let item = match &program.items[j] {
                Item::Function(func) => {
                    let body = self.check_function(func);
                    DecoratedItem::Function(DecoratedFunction { function: copy_function(func), body })
                },
                Item::FunctionDecl(decl) => DecoratedItem::FunctionDecl(copy_function_decl(decl)),
            };
            decorated.push(item);
            proof {
                let sub = items.subrange(0, j + 1);
                assert(sub.drop_last() =~= items.subrange(0, j as int));
                assert(sub.last() == items[j as int]);
                assert(decorated@ == prev.push(item));
                assert(decorated@.map_values(|d: DecoratedItem| d@) =~= prev.map_values(|d: DecoratedItem| d@).push(item@));
            }
            j = j + 1;
        }
        assert(items.subrange(0, items.len() as int) =~= items);
        if self.errors.len() == 0 {
            Ok(DecoratedProgram { items: decorated, symbol_table: symbols })
        } else {
            Err(self.copy_errors())
        }
    }
}

fn may_not_return_message(name: &String) -> (r: String)
    ensures
        r@ == msg_may_not_return(name@),
{
    let mut m = String::from_str("Function '");
    m.append(name.as_str());
    m.append("' may not return a value on all paths");
    m
}

fn return_mismatch_message(expected: Type, found: Type) -> (r: String)
    ensures
        r@ == msg_return_mismatch(expected, found),
{
    let mut m = String::from_str("Return type mismatch: expected ");
    m.append(type_text(expected).as_str());
    m.append(", found ");
    m.append(type_text(found).as_str());
    m
}

fn missing_return_value_message(expected: Type) -> (r: String)
    ensures
        r@ == msg_missing_return_value(expected),
{
    let mut m = String::from_str("Missing return value, expected ");
    m.append(type_text(expected).as_str());
    m
}

/// A copy of a list of types.
fn copy_types(v: &Vec<Type>) -> (r: Vec<Type>)
    ensures
        r@ == v@,
{
    let mut r: Vec<Type> = Vec::new();
    let mut i: usize = 0;
    while i < v.len()
        invariant
            i <= v@.len(),
            r@ == v@.subrange(0, i as int),
        decreases v@.len() - i,
    {
        r.push(v[i]);
        assert(r@ =~= v@.subrange(0, i + 1));
        i = i + 1;
    }
    assert(r@ =~= v@);
    r
}

fn undeclared_identifier_message(name: &String) -> (r: String)
    ensures
        r@ == msg_undeclared_identifier(name@),
{
    let mut m = String::from_str("Undeclared identifier '");
    m.append(name.as_str());
    m.append("'");
    m
}

fn assignment_mismatch_message(value_ty: Type, target_ty: Type) -> (r: String)
    ensures
        r@ == msg_assignment_mismatch(value_ty, target_ty),
{
    let mut m = String::from_str("Cannot assign value of type ");
    m.append(type_text(value_ty).as_str());
    m.append(" to variable of type ");
    m.append(type_text(target_ty).as_str());
    m
}

fn binary_mismatch_message(left: Type, right: Type) -> (r: String)
    ensures
        r@ == msg_binary_mismatch(left, right),
{
    let mut m = String::from_str("Type mismatch in binary expression: ");
    m.append(type_text(left).as_str());
    m.append(" vs ");
    m.append(type_text(right).as_str());
    m
}

fn arity_message(callee: &String, expected: usize, found: usize) -> (r: String)
    ensures
        r@ == msg_arity(callee@, expected as nat, found as nat),
{
    let mut m = String::from_str("Function '");
    m.append(callee.as_str());
    m.append("' expects ");
    m.append(decimal_text(expected).as_str());
    m.append(" argument(s), found ");
    m.append(decimal_text(found).as_str());
    m
}

fn argument_message(number: usize, callee: &String, expected: Type, found: Type) -> (r: String)
    ensures
        r@ == msg_argument(number as nat, callee@, expected, found),
{
    let mut m = String::from_str("Argument ");
    m.append(decimal_text(number).as_str());
    m.append(" of '");
    m.append(callee.as_str());
    m.append("' expected type ");
    m.append(type_text(expected).as_str());
    m.append(", found ");
    m.append(type_text(found).as_str());
    m
}

fn not_a_function_message(callee: &String) -> (r: String)
    ensures
        r@ == msg_not_a_function(callee@),
{
    let mut m = String::from_str("'");
    m.append(callee.as_str());
    m.append("' is not a function");
    m
}

fn undeclared_function_message(callee: &String) -> (r: String)
    ensures
        r@ == msg_undeclared_function(callee@),
{
    let mut m = String::from_str("Undeclared function '");
    m.append(callee.as_str());
    m.append("'");
    m
}

/// The name of a type as diagnostics print it.
fn type_text(t: Type) -> (r: String)
    ensures
        r@ == type_label(t),
{
    match t {
        Type::Int => String::from_str("Int"),
        Type::Char => String::from_str("Char"),
        Type::String => String::from_str("String"),
    }
}

fn redeclaration_message(name: &String) -> (r: String)
    ensures
        r@ == msg_redeclaration(name@),
{
    let mut m = String::from_str("Redeclaration of '");
    m.append(name.as_str());
    m.append("' in same scope");
    m
}

} // verus!
