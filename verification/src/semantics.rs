use vstd::prelude::*;
use crate::ast::{
    type_label, Type, SpecExpr, SpecStmt, SpecSwitchCase, SpecParam, SpecFunction, SpecItem,
    SpecProgram, SpecDecoratedStmt, SpecDecoratedFunction, SpecDecoratedItem, SpecDecoratedProgram,
};

use crate::text::decimal;

verus! {

/// What a declared name stands for.
pub enum SpecKind {
    Variable,
    Function { params: Seq<Type>, return_value: Type },
    Parameter,
}

/// A declared name with its type.
pub struct SpecSymbol {
    pub name: Seq<char>,
    pub ty: Type,
    pub kind: SpecKind,
}

/// The analyser's state: the stack of scopes (innermost last) and the
/// diagnostics reported so far, in order.
#[verifier::ext_equal]
pub struct AnalysisState {
    pub scopes: Seq<Seq<SpecSymbol>>,
    pub errors: Seq<Seq<char>>,
}

/// What a statement is checked against: the return type of the enclosing
/// function and whether it stands inside a loop or a switch.
pub struct CheckContext {
    pub ret: Type,
    pub in_loop: bool,
    pub in_switch: bool,
}

// ---------------------------------------------------------------------------
// Diagnostics
// ---------------------------------------------------------------------------

pub open spec fn msg_undeclared_identifier(name: Seq<char>) -> Seq<char> {
    "Undeclared identifier '"@ + name + "'"@
}

pub open spec fn msg_assignment_target() -> Seq<char> {
    "Left-hand side of assignment must be a variable"@
}

pub open spec fn msg_assignment_mismatch(value_ty: Type, target_ty: Type) -> Seq<char> {
    "Cannot assign value of type "@ + type_label(value_ty) + " to variable of type "@ + type_label(target_ty)
}

pub open spec fn msg_binary_mismatch(left: Type, right: Type) -> Seq<char> {
    "Type mismatch in binary expression: "@ + type_label(left) + " vs "@ + type_label(right)
}

pub open spec fn msg_arity(callee: Seq<char>, expected: nat, found: nat) -> Seq<char> {
    "Function '"@ + callee + "' expects "@ + decimal(expected) + " argument(s), found "@ + decimal(found)
}

pub open spec fn msg_argument(number: nat, callee: Seq<char>, expected: Type, found: Type) -> Seq<char> {
    "Argument "@ + decimal(number) + " of '"@ + callee + "' expected type "@ + type_label(expected)
        + ", found "@ + type_label(found)
}

pub open spec fn msg_not_a_function(callee: Seq<char>) -> Seq<char> {
    "'"@ + callee + "' is not a function"@
}

pub open spec fn msg_undeclared_function(callee: Seq<char>) -> Seq<char> {
    "Undeclared function '"@ + callee + "'"@
}

pub open spec fn msg_redeclaration(name: Seq<char>) -> Seq<char> {
    "Redeclaration of '"@ + name + "' in same scope"@
}

pub open spec fn msg_return_mismatch(expected: Type, found: Type) -> Seq<char> {
    "Return type mismatch: expected "@ + type_label(expected) + ", found "@ + type_label(found)
}

pub open spec fn msg_missing_return_value(expected: Type) -> Seq<char> {
    "Missing return value, expected "@ + type_label(expected)
}

pub open spec fn msg_break_outside() -> Seq<char> {
    "'break' used outside of a loop or switch"@
}

pub open spec fn msg_continue_outside() -> Seq<char> {
    "'continue' used outside of a loop"@
}

pub open spec fn msg_may_not_return(name: Seq<char>) -> Seq<char> {
    "Function '"@ + name + "' may not return a value on all paths"@
}

// ---------------------------------------------------------------------------
// Scopes
// ---------------------------------------------------------------------------

/// The symbol declared under `name` in one scope, searched from the front.
pub open spec fn scope_find(scope: Seq<SpecSymbol>, name: Seq<char>) -> Option<SpecSymbol>
    decreases scope.len(),
{
    if scope.len() == 0 {
        None
    } else if scope[0].name == name {
        Some(scope[0])
    } else {
        scope_find(scope.subrange(1, scope.len() as int), name)
    }
}

/// The symbol that `name` denotes: the one of the innermost scope that declares it.
pub open spec fn env_lookup(scopes: Seq<Seq<SpecSymbol>>, name: Seq<char>) -> Option<SpecSymbol>
    decreases scopes.len(),
{
    if scopes.len() == 0 {
        None
    } else {
        match scope_find(scopes.last(), name) {
            Some(sym) => Some(sym),
            None => env_lookup(scopes.drop_last(), name),
        }
    }
}

/// No name is declared twice in one scope.
pub open spec fn names_distinct(scope: Seq<SpecSymbol>) -> bool {
    forall|j: int, k: int| 0 <= j < k < scope.len() ==> #[trigger] scope[j].name != #[trigger] scope[k].name
}

/// No scope declares a name twice.
pub open spec fn scopes_distinct(scopes: Seq<Seq<SpecSymbol>>) -> bool {
    forall|i: int| 0 <= i < scopes.len() ==> names_distinct(#[trigger] scopes[i])
}

/// A scope in which `name` is not found declares no symbol of that name.
pub proof fn lemma_scope_find_none(scope: Seq<SpecSymbol>, name: Seq<char>)
    requires
        scope_find(scope, name) is None,
    ensures
        forall|k: int| 0 <= k < scope.len() ==> #[trigger] scope[k].name != name,
    decreases scope.len(),
{
    if scope.len() > 0 {
        let rest = scope.subrange(1, scope.len() as int);
        lemma_scope_find_none(rest, name);
        assert forall|k: int| 0 <= k < scope.len() implies #[trigger] scope[k].name != name by {
            if k > 0 {
                assert(scope[k] == rest[k - 1]);
            }
        }
    }
}

/// Declaring keeps every scope free of repeated names.
pub proof fn lemma_declare_keeps_names_distinct(st: AnalysisState, name: Seq<char>, sym: SpecSymbol)
    requires
        st.scopes.len() >= 1,
        scopes_distinct(st.scopes),
        sym.name == name,
    ensures
        scopes_distinct(declare(st, name, sym).scopes),
{
    if scope_find(st.scopes.last(), name) is None {
        lemma_scope_find_none(st.scopes.last(), name);
        let scopes = declare(st, name, sym).scopes;
        let last = st.scopes.last().push(sym);
        assert(names_distinct(st.scopes.last()));
        assert(names_distinct(last)) by {
            assert forall|j: int, k: int| 0 <= j < k < last.len() implies #[trigger] last[j].name
                != #[trigger] last[k].name by {
                if k == last.len() - 1 {
                    assert(last[j] == st.scopes.last()[j]);
                } else {
                    assert(last[j] == st.scopes.last()[j]);
                    assert(last[k] == st.scopes.last()[k]);
                }
            }
        }
        assert forall|i: int| 0 <= i < scopes.len() implies names_distinct(#[trigger] scopes[i]) by {
            if i < scopes.len() - 1 {
                assert(scopes[i] == st.scopes[i]);
            }
        }
    }
}

pub open spec fn append_errors(st: AnalysisState, errs: Seq<Seq<char>>) -> AnalysisState {
    AnalysisState { scopes: st.scopes, errors: st.errors + errs }
}

pub open spec fn report(st: AnalysisState, msg: Seq<char>) -> AnalysisState {
    AnalysisState { scopes: st.scopes, errors: st.errors.push(msg) }
}

/// Declares `sym` under `name` in the innermost scope, or reports a
/// redeclaration when that scope already has the name.
pub open spec fn declare(st: AnalysisState, name: Seq<char>, sym: SpecSymbol) -> AnalysisState {
    if scope_find(st.scopes.last(), name) is Some {
        report(st, msg_redeclaration(name))
    } else {
        AnalysisState {
            scopes: st.scopes.update(st.scopes.len() - 1, st.scopes.last().push(sym)),
            errors: st.errors,
        }
    }
}

pub open spec fn push_scope(st: AnalysisState) -> AnalysisState {
    AnalysisState { scopes: st.scopes.push(Seq::empty()), errors: st.errors }
}

pub open spec fn pop_scope(st: AnalysisState) -> AnalysisState {
    AnalysisState { scopes: st.scopes.drop_last(), errors: st.errors }
}

// ---------------------------------------------------------------------------
// Expressions
// ---------------------------------------------------------------------------

/// The type of an expression: that of its identifier, assignment target,
/// left operand or operand; a called function's return type; `Int` where
/// the expression is in error.
pub open spec fn expr_type(scopes: Seq<Seq<SpecSymbol>>, e: SpecExpr) -> Type
    decreases e,
{
    match e {
        SpecExpr::IntegerLit(_) => Type::Int,
        SpecExpr::CharLit(_) => Type::Char,
        SpecExpr::StringLit(_) => Type::String,
        SpecExpr::Identifier(name) => match env_lookup(scopes, name) {
            Some(sym) => sym.ty,
            None => Type::Int,
        },
        SpecExpr::Assignment { target, .. } => expr_type(scopes, *target),
        SpecExpr::BinaryOp { left, .. } => expr_type(scopes, *left),
        SpecExpr::UnaryOp { expr, .. } => expr_type(scopes, *expr),
        SpecExpr::FunCall { callee, .. } => call_type(scopes, callee),
    }
}

/// The type of a call: the callee's return type, `Int` where the callee is
/// not a declared function.
pub open spec fn call_type(scopes: Seq<Seq<SpecSymbol>>, callee: Seq<char>) -> Type {
    match env_lookup(scopes, callee) {
        Some(sym) => match sym.kind {
            SpecKind::Function { return_value, .. } => return_value,
            _ => Type::Int,
        },
        None => Type::Int,
    }
}

pub open spec fn one_if(cond: bool, msg: Seq<char>) -> Seq<Seq<char>> {
    if cond {
        seq![msg]
    } else {
        Seq::empty()
    }
}

/// The diagnostics that checking an expression reports, in order.
pub open spec fn expr_errors(scopes: Seq<Seq<SpecSymbol>>, e: SpecExpr) -> Seq<Seq<char>>
    decreases e, 0nat,
{
    match e {
        SpecExpr::IntegerLit(_) => Seq::empty(),
        SpecExpr::CharLit(_) => Seq::empty(),
        SpecExpr::StringLit(_) => Seq::empty(),
        SpecExpr::Identifier(name) => one_if(env_lookup(scopes, name) is None, msg_undeclared_identifier(name)),
        SpecExpr::Assignment { target, value, .. } => {
            let tt = expr_type(scopes, *target);
            let vt = expr_type(scopes, *value);
            one_if(!(*target is Identifier), msg_assignment_target()) + expr_errors(scopes, *target)
                + expr_errors(scopes, *value) + one_if(tt != vt, msg_assignment_mismatch(vt, tt))
        },
        SpecExpr::BinaryOp { left, right, .. } => {
            let lt = expr_type(scopes, *left);
            let rt = expr_type(scopes, *right);
            expr_errors(scopes, *left) + expr_errors(scopes, *right) + one_if(lt != rt, msg_binary_mismatch(lt, rt))
        },
        SpecExpr::UnaryOp { expr, .. } => expr_errors(scopes, *expr),
        SpecExpr::FunCall { callee, args } => call_errors(scopes, callee, args),
    }
}

/// The diagnostics of a call: an unknown callee or one that is no function;
/// else a wrong number of arguments, then those of the arguments.
pub open spec fn call_errors(scopes: Seq<Seq<SpecSymbol>>, callee: Seq<char>, args: Seq<SpecExpr>) -> Seq<Seq<char>>
    decreases args, 2nat,
{
    match env_lookup(scopes, callee) {
        Some(sym) => match sym.kind {
            SpecKind::Function { params, .. } => one_if(
                params.len() != args.len(),
                msg_arity(callee, params.len(), args.len()),
            ) + args_errors(scopes, callee, params, args),
            _ => seq![msg_not_a_function(callee)],
        },
        None => seq![msg_undeclared_function(callee)],
    }
}

/// The diagnostics of the arguments of a call: for each argument in turn,
/// those of the argument, then a mismatch with the declared parameter type.
pub open spec fn args_errors(
    scopes: Seq<Seq<SpecSymbol>>,
    callee: Seq<char>,
    params: Seq<Type>,
    args: Seq<SpecExpr>,
) -> Seq<Seq<char>>
    decreases args, 1nat,
{
    if args.len() == 0 {
        Seq::empty()
    } else {
        let i = args.len() - 1;
        let ty = expr_type(scopes, args[i]);
        args_errors(scopes, callee, params, args.drop_last()) + expr_errors(scopes, args[i]) + one_if(
            i < params.len() && params[i] != ty,
            msg_argument((i + 1) as nat, callee, params[i], ty),
        )
    }
}

pub open spec fn check_expr(st: AnalysisState, e: SpecExpr) -> AnalysisState {
    append_errors(st, expr_errors(st.scopes, e))
}

pub open spec fn check_opt_expr(st: AnalysisState, e: Option<SpecExpr>) -> AnalysisState {
    match e {
        Some(e) => check_expr(st, e),
        None => st,
    }
}

// ---------------------------------------------------------------------------
// Statements
// ---------------------------------------------------------------------------

pub open spec fn loop_context(ctx: CheckContext) -> CheckContext {
    CheckContext { in_loop: true, ..ctx }
}

pub open spec fn switch_context(ctx: CheckContext) -> CheckContext {
    CheckContext { in_switch: true, ..ctx }
}

/// The state after checking a statement.
pub open spec fn check_stmt(st: AnalysisState, ctx: CheckContext, s: SpecStmt) -> AnalysisState
    decreases s,
{
    match s {
        SpecStmt::VarDeclaration { var_type, name, value } => declare(
            check_opt_expr(st, value),
            name,
            SpecSymbol { name, ty: var_type, kind: SpecKind::Variable },
        ),
        SpecStmt::ReturnStmt(value) => match value {
            Some(e) => {
                let found = expr_type(st.scopes, e);
                append_errors(check_expr(st, e), one_if(found != ctx.ret, msg_return_mismatch(ctx.ret, found)))
            },
            None => report(st, msg_missing_return_value(ctx.ret)),
        },
        SpecStmt::Expr(e) => check_expr(st, e),
        SpecStmt::Block(stmts) => pop_scope(check_stmts(push_scope(st), ctx, stmts)),
        SpecStmt::If { condition, b_then, b_else } => {
            let after_then = check_stmt(check_expr(st, condition), ctx, *b_then);
            match b_else {
                Some(b) => check_stmt(after_then, ctx, *b),
                None => after_then,
            }
        },
        SpecStmt::While { condition, body } => check_stmt(check_expr(st, condition), loop_context(ctx), *body),
        SpecStmt::DoWhile { body, condition } => check_expr(check_stmt(st, loop_context(ctx), *body), condition),
        SpecStmt::For { init, condition, update, body } => {
            let inner = push_scope(st);
            let after_init = match init {
                Some(i) => check_stmt(inner, ctx, *i),
                None => inner,
            };
            let after_header = check_opt_expr(check_expr(after_init, condition), update);
            pop_scope(check_stmt(after_header, loop_context(ctx), *body))
        },
        SpecStmt::Switch { cond, cases } => check_cases(check_expr(st, cond), switch_context(ctx), cases),
        SpecStmt::Break => if !ctx.in_loop && !ctx.in_switch {
            report(st, msg_break_outside())
        } else {
            st
        },
        SpecStmt::Continue => if !ctx.in_loop {
            report(st, msg_continue_outside())
        } else {
            st
        },
    }
}

/// The state after checking statements one after the other.
pub open spec fn check_stmts(st: AnalysisState, ctx: CheckContext, stmts: Seq<SpecStmt>) -> AnalysisState
    decreases stmts,
{
    if stmts.len() == 0 {
        st
    } else {
        check_stmt(check_stmts(st, ctx, stmts.drop_last()), ctx, stmts.last())
    }
}

/// The state after checking a case: its value, then its statements.
pub open spec fn check_case(st: AnalysisState, ctx: CheckContext, c: SpecSwitchCase) -> AnalysisState
    decreases c,
{
    check_stmts(check_opt_expr(st, c.value), ctx, c.body)
}

pub open spec fn check_cases(st: AnalysisState, ctx: CheckContext, cases: Seq<SpecSwitchCase>) -> AnalysisState
    decreases cases,
{
    if cases.len() == 0 {
        st
    } else {
        check_case(check_cases(st, ctx, cases.drop_last()), ctx, cases.last())
    }
}

/// Whether a `return` statement occurs anywhere in a statement.
pub open spec fn contains_return(s: SpecStmt) -> bool
    decreases s,
{
    match s {
        SpecStmt::ReturnStmt(_) => true,
        SpecStmt::Block(stmts) => stmts_contain_return(stmts),
        SpecStmt::If { b_then, b_else, .. } => contains_return(*b_then) || (match b_else {
            Some(b) => contains_return(*b),
            None => false,
        }),
        SpecStmt::While { body, .. } => contains_return(*body),
        SpecStmt::DoWhile { body, .. } => contains_return(*body),
        SpecStmt::For { init, body, .. } => (match init {
            Some(i) => contains_return(*i),
            None => false,
        }) || contains_return(*body),
        SpecStmt::Switch { cases, .. } => cases_contain_return(cases),
        _ => false,
    }
}

/// Whether a `return` statement occurs in one of the statements.
pub open spec fn stmts_contain_return(stmts: Seq<SpecStmt>) -> bool
    decreases stmts,
{
    if stmts.len() == 0 {
        false
    } else {
        stmts_contain_return(stmts.drop_last()) || contains_return(stmts.last())
    }
}

/// Whether a `return` statement occurs in the body of a case.
pub open spec fn case_contains_return(c: SpecSwitchCase) -> bool
    decreases c,
{
    stmts_contain_return(c.body)
}

/// Whether a `return` statement occurs in one of the cases.
pub open spec fn cases_contain_return(cases: Seq<SpecSwitchCase>) -> bool
    decreases cases,
{
    if cases.len() == 0 {
        false
    } else {
        cases_contain_return(cases.drop_last()) || case_contains_return(cases.last())
    }
}

/// A sequence without `return` has no statement with one.
pub proof fn lemma_stmts_without_return(stmts: Seq<SpecStmt>)
    requires
        !stmts_contain_return(stmts),
    ensures
        forall|i: int| 0 <= i < stmts.len() ==> !contains_return(#[trigger] stmts[i]),
    decreases stmts.len(),
{
    if stmts.len() > 0 {
        lemma_stmts_without_return(stmts.drop_last());
        assert forall|i: int| 0 <= i < stmts.len() implies !contains_return(#[trigger] stmts[i]) by {
            if i < stmts.len() - 1 {
                assert(stmts[i] == stmts.drop_last()[i]);
            }
        }
    }
}

/// Cases without `return` have no case with one.
pub proof fn lemma_cases_without_return(cases: Seq<SpecSwitchCase>)
    requires
        !cases_contain_return(cases),
    ensures
        forall|i: int| 0 <= i < cases.len() ==> !case_contains_return(#[trigger] cases[i]),
    decreases cases.len(),
{
    if cases.len() > 0 {
        lemma_cases_without_return(cases.drop_last());
        assert forall|i: int| 0 <= i < cases.len() implies !case_contains_return(#[trigger] cases[i]) by {
            if i < cases.len() - 1 {
                assert(cases[i] == cases.drop_last()[i]);
            }
        }
    }
}

/// Whether a statement returns on every path through it.
pub open spec fn stmt_always_returns(s: SpecStmt) -> bool
    decreases s,
{
    match s {
        SpecStmt::ReturnStmt(_) => true,
        SpecStmt::Block(stmts) => any_returns(stmts),
        SpecStmt::If { b_then, b_else, .. } => match b_else {
            Some(b) => stmt_always_returns(*b_then) && stmt_always_returns(*b),
            None => false,
        },
        _ => false,
    }
}

/// Whether some statement of the sequence returns on every path.
pub open spec fn any_returns(stmts: Seq<SpecStmt>) -> bool
    decreases stmts,
{
    if stmts.len() == 0 {
        false
    } else {
        any_returns(stmts.drop_last()) || stmt_always_returns(stmts.last())
    }
}

/// The type recorded for a statement of a function body: that of the
/// expression of an expression statement or of a `return` with a value.
pub open spec fn stmt_type(scopes: Seq<Seq<SpecSymbol>>, s: SpecStmt) -> Option<Type> {
    match s {
        SpecStmt::Expr(e) => Some(expr_type(scopes, e)),
        SpecStmt::ReturnStmt(Some(e)) => Some(expr_type(scopes, e)),
        _ => None,
    }
}

/// The decorated statements of a body: each with the type recorded for it
/// in the scopes in which it is checked.
pub open spec fn decorate_stmts(st: AnalysisState, ctx: CheckContext, stmts: Seq<SpecStmt>) -> Seq<SpecDecoratedStmt>
    decreases stmts.len(),
{
    if stmts.len() == 0 {
        Seq::empty()
    } else {
        let before = check_stmts(st, ctx, stmts.drop_last());
        decorate_stmts(st, ctx, stmts.drop_last()).push(
            SpecDecoratedStmt { stmt: stmts.last(), inferred_type: stmt_type(before.scopes, stmts.last()) },
        )
    }
}

// ---------------------------------------------------------------------------
// Functions and programs
// ---------------------------------------------------------------------------

pub open spec fn param_symbol(p: SpecParam) -> SpecSymbol {
    SpecSymbol { name: p.name, ty: p.param_type, kind: SpecKind::Parameter }
}

/// Declares the parameters one after the other.
pub open spec fn declare_params(st: AnalysisState, params: Seq<SpecParam>) -> AnalysisState
    decreases params.len(),
{
    if params.len() == 0 {
        st
    } else {
        declare(declare_params(st, params.drop_last()), params.last().name, param_symbol(params.last()))
    }
}

/// The context of a function's body: its return type, outside any loop or switch.
pub open spec fn function_context(f: SpecFunction) -> CheckContext {
    CheckContext { ret: f.ret_type, in_loop: false, in_switch: false }
}

/// The state in which the body of `f` is checked.
pub open spec fn function_entry(st: AnalysisState, f: SpecFunction) -> AnalysisState {
    declare_params(push_scope(st), f.params)
}

/// The state after checking a function definition.
pub open spec fn check_function(st: AnalysisState, f: SpecFunction) -> AnalysisState {
    check_function_in(st, f, function_context(f))
}

/// The state after checking a function definition whose body is checked in `ctx`.
pub open spec fn check_function_in(st: AnalysisState, f: SpecFunction, ctx: CheckContext) -> AnalysisState {
    let checked = check_stmts(function_entry(st, f), ctx, f.body);
    pop_scope(
        if any_returns(f.body) {
            checked
        } else {
            report(checked, msg_may_not_return(f.name))
        },
    )
}

pub open spec fn signature_symbol(name: Seq<char>, ret: Type, params: Seq<SpecParam>) -> SpecSymbol {
    SpecSymbol {
        name,
        ty: ret,
        kind: SpecKind::Function { params: params.map_values(|p: SpecParam| p.param_type), return_value: ret },
    }
}

pub open spec fn declare_item(st: AnalysisState, item: SpecItem) -> AnalysisState {
    match item {
        SpecItem::Function(f) => declare(st, f.name, signature_symbol(f.name, f.ret_type, f.params)),
        SpecItem::FunctionDecl(d) => declare(st, d.name, signature_symbol(d.name, d.ret_type, d.params)),
    }
}

/// Declares the signature of every item, in order.
pub open spec fn declare_items(st: AnalysisState, items: Seq<SpecItem>) -> AnalysisState
    decreases items.len(),
{
    if items.len() == 0 {
        st
    } else {
        declare_item(declare_items(st, items.drop_last()), items.last())
    }
}

pub open spec fn check_item(st: AnalysisState, item: SpecItem) -> AnalysisState {
    match item {
        SpecItem::Function(f) => check_function(st, f),
        SpecItem::FunctionDecl(_) => st,
    }
}

/// Checks every function definition, in order.
pub open spec fn check_items(st: AnalysisState, items: Seq<SpecItem>) -> AnalysisState
    decreases items.len(),
{
    if items.len() == 0 {
        st
    } else {
        check_item(check_items(st, items.drop_last()), items.last())
    }
}

pub open spec fn decorate_item(st: AnalysisState, item: SpecItem) -> SpecDecoratedItem {
    match item {
        SpecItem::Function(f) => SpecDecoratedItem::Function(
            SpecDecoratedFunction {
                function: f,
                body: decorate_stmts(function_entry(st, f), function_context(f), f.body),
            },
        ),
        SpecItem::FunctionDecl(d) => SpecDecoratedItem::FunctionDecl(d),
    }
}

/// The decorated items, each decorated in the state in which it is checked.
pub open spec fn decorate_items(st: AnalysisState, items: Seq<SpecItem>) -> Seq<SpecDecoratedItem>
    decreases items.len(),
{
    if items.len() == 0 {
        Seq::empty()
    } else {
        decorate_items(st, items.drop_last()).push(
            decorate_item(check_items(st, items.drop_last()), items.last()),
        )
    }
}

/// The state at the start of an analysis: one empty global scope.
pub open spec fn initial_state() -> AnalysisState {
    AnalysisState { scopes: seq![Seq::empty()], errors: Seq::empty() }
}

/// The global symbols with their types, in declaration order.
pub open spec fn symbol_table(scope: Seq<SpecSymbol>) -> Seq<(Seq<char>, Type)> {
    scope.map_values(|s: SpecSymbol| (s.name, s.ty))
}

/// The outcome of analysing a program: the decorated program when no
/// diagnostic was reported, else every diagnostic in the order reported.
pub open spec fn spec_analyze(p: SpecProgram) -> Result<SpecDecoratedProgram, Seq<Seq<char>>> {
    let declared = declare_items(initial_state(), p.items);
    let checked = check_items(declared, p.items);
    if checked.errors.len() == 0 {
        Ok(
            SpecDecoratedProgram {
                items: decorate_items(declared, p.items),
                symbol_table: symbol_table(declared.scopes[0]),
            },
        )
    } else {
        Err(checked.errors)
    }
}

// ---------------------------------------------------------------------------
// Laws
// ---------------------------------------------------------------------------

/// `after` has as many scopes as `before`, keeps every scope but the
/// innermost, keeps the symbols of the innermost and may add symbols after
/// them, and holds the diagnostics of `before` followed by new ones.
pub open spec fn extends(before: AnalysisState, after: AnalysisState) -> bool {
    &&& after.scopes.len() == before.scopes.len()
    &&& forall|i: int| 0 <= i < before.scopes.len() - 1 ==> #[trigger] after.scopes[i] == before.scopes[i]
    &&& before.scopes.len() >= 1 ==> before.scopes.last().is_prefix_of(after.scopes.last())
    &&& before.errors.is_prefix_of(after.errors)
}

proof fn lemma_extends_trans(a: AnalysisState, b: AnalysisState, c: AnalysisState)
    requires
        extends(a, b),
        extends(b, c),
    ensures
        extends(a, c),
{
    assert forall|i: int| 0 <= i < a.errors.len() implies c.errors[i] == a.errors[i] by {
        assert(b.errors[i] == a.errors[i]);
    }
    if a.scopes.len() >= 1 {
        assert forall|i: int| 0 <= i < a.scopes.last().len() implies c.scopes.last()[i] == a.scopes.last()[i] by {
            assert(b.scopes.last()[i] == a.scopes.last()[i]);
        }
    }
}

proof fn lemma_extends_refl(a: AnalysisState)
    ensures
        extends(a, a),
{
}

proof fn lemma_check_opt_expr_extends(st: AnalysisState, e: Option<SpecExpr>)
    ensures
        extends(st, check_opt_expr(st, e)),
        check_opt_expr(st, e).scopes == st.scopes,
{
}

proof fn lemma_declare_extends(st: AnalysisState, name: Seq<char>, sym: SpecSymbol)
    requires
        st.scopes.len() >= 1,
    ensures
        extends(st, declare(st, name, sym)),
{
}

/// Checking a block between `push_scope` and `pop_scope` leaves every scope as it was.
proof fn lemma_scoped_extends(st: AnalysisState, inner: AnalysisState)
    requires
        st.scopes.len() >= 1,
        extends(push_scope(st), inner),
    ensures
        extends(st, pop_scope(inner)),
        pop_scope(inner).scopes == st.scopes,
{
    assert(pop_scope(inner).scopes =~= st.scopes) by {
        assert forall|i: int| 0 <= i < st.scopes.len() implies inner.scopes[i] == st.scopes[i] by {
            assert(push_scope(st).scopes[i] == st.scopes[i]);
        }
    }
}

/// Checking a statement keeps the number of scopes, every scope but the
/// innermost and the symbols already in the innermost, and only adds
/// diagnostics after those already reported.
pub proof fn lemma_check_stmt_extends(st: AnalysisState, ctx: CheckContext, s: SpecStmt)
    requires
        st.scopes.len() >= 1,
    ensures
        extends(st, check_stmt(st, ctx, s)),
    decreases s,
{
    match s {
        SpecStmt::VarDeclaration { var_type, name, value } => {
            lemma_check_opt_expr_extends(st, value);
            let st1 = check_opt_expr(st, value);
            lemma_declare_extends(st1, name, SpecSymbol { name, ty: var_type, kind: SpecKind::Variable });
            lemma_extends_trans(st, st1, check_stmt(st, ctx, s));
        },
        SpecStmt::ReturnStmt(_) => {},
        SpecStmt::Expr(_) => {},
        SpecStmt::Block(stmts) => {
            lemma_check_stmts_extends(push_scope(st), ctx, stmts);
            lemma_scoped_extends(st, check_stmts(push_scope(st), ctx, stmts));
        },
        SpecStmt::If { condition, b_then, b_else } => {
            let st1 = check_expr(st, condition);
            lemma_check_stmt_extends(st1, ctx, *b_then);
            let st2 = check_stmt(st1, ctx, *b_then);
            lemma_extends_trans(st, st1, st2);
            match b_else {
                Some(b) => {
                    lemma_check_stmt_extends(st2, ctx, *b);
                    lemma_extends_trans(st, st2, check_stmt(st2, ctx, *b));
                },
                None => {},
            }
        },
        SpecStmt::While { condition, body } => {
            let st1 = check_expr(st, condition);
            lemma_check_stmt_extends(st1, loop_context(ctx), *body);
            lemma_extends_trans(st, st1, check_stmt(st1, loop_context(ctx), *body));
        },
        SpecStmt::DoWhile { body, condition } => {
            lemma_check_stmt_extends(st, loop_context(ctx), *body);
            let st1 = check_stmt(st, loop_context(ctx), *body);
            lemma_extends_trans(st, st1, check_expr(st1, condition));
        },
        SpecStmt::For { init, condition, update, body } => {
            let inner = push_scope(st);
            let after_init = match init {
                Some(i) => check_stmt(inner, ctx, *i),
                None => inner,
            };
            match init {
                Some(i) => lemma_check_stmt_extends(inner, ctx, *i),
                None => lemma_extends_refl(inner),
            }
            let st2 = check_expr(after_init, condition);
            lemma_extends_trans(inner, after_init, st2);
            let after_header = check_opt_expr(st2, update);
            lemma_check_opt_expr_extends(st2, update);
            lemma_extends_trans(inner, st2, after_header);
            lemma_check_stmt_extends(after_header, loop_context(ctx), *body);
            let st3 = check_stmt(after_header, loop_context(ctx), *body);
            lemma_extends_trans(inner, after_header, st3);
            lemma_scoped_extends(st, st3);
        },
        SpecStmt::Switch { cond, cases } => {
            let st1 = check_expr(st, cond);
            lemma_check_cases_extends(st1, switch_context(ctx), cases);
            lemma_extends_trans(st, st1, check_cases(st1, switch_context(ctx), cases));
        },
        SpecStmt::Break => {},
        SpecStmt::Continue => {},
    }
}

/// Checking statements one after the other keeps every scope but the
/// innermost and only adds diagnostics.
pub proof fn lemma_check_stmts_extends(st: AnalysisState, ctx: CheckContext, stmts: Seq<SpecStmt>)
    requires
        st.scopes.len() >= 1,
    ensures
        extends(st, check_stmts(st, ctx, stmts)),
    decreases stmts,
{
    if stmts.len() == 0 {
        lemma_extends_refl(st);
    } else {
        lemma_check_stmts_extends(st, ctx, stmts.drop_last());
        let st1 = check_stmts(st, ctx, stmts.drop_last());
        lemma_check_stmt_extends(st1, ctx, stmts.last());
        lemma_extends_trans(st, st1, check_stmt(st1, ctx, stmts.last()));
    }
}

proof fn lemma_check_case_extends(st: AnalysisState, ctx: CheckContext, c: SpecSwitchCase)
    requires
        st.scopes.len() >= 1,
    ensures
        extends(st, check_case(st, ctx, c)),
    decreases c,
{
    let st1 = check_opt_expr(st, c.value);
    lemma_check_opt_expr_extends(st, c.value);
    lemma_check_stmts_extends(st1, ctx, c.body);
    lemma_extends_trans(st, st1, check_case(st, ctx, c));
}

proof fn lemma_check_cases_extends(st: AnalysisState, ctx: CheckContext, cases: Seq<SpecSwitchCase>)
    requires
        st.scopes.len() >= 1,
    ensures
        extends(st, check_cases(st, ctx, cases)),
    decreases cases,
{
    if cases.len() == 0 {
        lemma_extends_refl(st);
    } else {
        lemma_check_cases_extends(st, ctx, cases.drop_last());
        let st1 = check_cases(st, ctx, cases.drop_last());
        lemma_check_case_extends(st1, ctx, cases.last());
        lemma_extends_trans(st, st1, check_case(st1, ctx, cases.last()));
    }
}

/// A block or a `for` statement leaves the scopes exactly as they were: the
/// names declared inside it are not visible after it.
pub proof fn lemma_block_scope_is_discarded(st: AnalysisState, ctx: CheckContext, s: SpecStmt)
    requires
        st.scopes.len() >= 1,
        s is Block || s is For,
    ensures
        check_stmt(st, ctx, s).scopes == st.scopes,
{
    lemma_check_stmt_extends(st, ctx, s);
    match s {
        SpecStmt::Block(stmts) => {
            lemma_check_stmts_extends(push_scope(st), ctx, stmts);
            lemma_scoped_extends(st, check_stmts(push_scope(st), ctx, stmts));
        },
        SpecStmt::For { init, condition, update, body } => {
            let inner = push_scope(st);
            let after_init = match init {
                Some(i) => check_stmt(inner, ctx, *i),
                None => inner,
            };
            match init {
                Some(i) => lemma_check_stmt_extends(inner, ctx, *i),
                None => lemma_extends_refl(inner),
            }
            let st2 = check_expr(after_init, condition);
            lemma_extends_trans(inner, after_init, st2);
            let after_header = check_opt_expr(st2, update);
            lemma_check_opt_expr_extends(st2, update);
            lemma_extends_trans(inner, st2, after_header);
            lemma_check_stmt_extends(after_header, loop_context(ctx), *body);
            let st3 = check_stmt(after_header, loop_context(ctx), *body);
            lemma_extends_trans(inner, after_header, st3);
            lemma_scoped_extends(st, st3);
        },
        _ => {},
    }
}

/// A name declared where the innermost scope does not have it yet is found
/// again, as declared, by the next lookup.
pub proof fn lemma_lookup_after_declare(st: AnalysisState, name: Seq<char>, sym: SpecSymbol)
    requires
        st.scopes.len() >= 1,
        scope_find(st.scopes.last(), name) is None,
        sym.name == name,
    ensures
        declare(st, name, sym).errors == st.errors,
        env_lookup(declare(st, name, sym).scopes, name) == Some(sym),
{
    let after = declare(st, name, sym).scopes;
    lemma_scope_find_push(st.scopes.last(), name, sym);
    assert(after.last() == st.scopes.last().push(sym));
}

/// Appending a symbol to a scope that lacks its name makes the scope find it.
proof fn lemma_scope_find_push(scope: Seq<SpecSymbol>, name: Seq<char>, sym: SpecSymbol)
    requires
        scope_find(scope, name) is None,
        sym.name == name,
    ensures
        scope_find(scope.push(sym), name) == Some(sym),
    decreases scope.len(),
{
    if scope.len() > 0 {
        let rest = scope.subrange(1, scope.len() as int);
        lemma_scope_find_push(rest, name, sym);
        assert(scope.push(sym).subrange(1, scope.len() as int + 1) =~= rest.push(sym));
    }
}

/// Declaring the same name twice in one scope reports exactly one
/// redeclaration, and the scopes keep what the first declaration left.
pub proof fn lemma_redeclaration_reported(st: AnalysisState, name: Seq<char>, first: SpecSymbol, second: SpecSymbol)
    requires
        st.scopes.len() >= 1,
        first.name == name,
    ensures
        declare(declare(st, name, first), name, second) == report(declare(st, name, first), msg_redeclaration(name)),
{
    let once = declare(st, name, first);
    if scope_find(st.scopes.last(), name) is None {
        lemma_scope_find_push(st.scopes.last(), name, first);
        assert(once.scopes.last() == st.scopes.last().push(first));
    }
}

proof fn lemma_declare_params_extends(st: AnalysisState, params: Seq<SpecParam>)
    requires
        st.scopes.len() >= 1,
    ensures
        extends(st, declare_params(st, params)),
    decreases params.len(),
{
    if params.len() == 0 {
        lemma_extends_refl(st);
    } else {
        lemma_declare_params_extends(st, params.drop_last());
        let st1 = declare_params(st, params.drop_last());
        lemma_declare_extends(st1, params.last().name, param_symbol(params.last()));
        lemma_extends_trans(st, st1, declare_params(st, params));
    }
}

/// Checking a function leaves the scopes as they were and only adds diagnostics.
proof fn lemma_check_function_extends(st: AnalysisState, f: SpecFunction)
    requires
        st.scopes.len() >= 1,
    ensures
        extends(st, check_function(st, f)),
        check_function(st, f).scopes == st.scopes,
{
    let inner = push_scope(st);
    lemma_declare_params_extends(inner, f.params);
    let entry = function_entry(st, f);
    lemma_check_stmts_extends(entry, function_context(f), f.body);
    let checked = check_stmts(entry, function_context(f), f.body);
    lemma_extends_trans(inner, entry, checked);
    let last = if any_returns(f.body) {
        checked
    } else {
        report(checked, msg_may_not_return(f.name))
    };
    assert(extends(checked, last));
    lemma_extends_trans(inner, checked, last);
    lemma_scoped_extends(st, last);
}

proof fn lemma_check_items_extends(st: AnalysisState, items: Seq<SpecItem>)
    requires
        st.scopes.len() >= 1,
    ensures
        extends(st, check_items(st, items)),
    decreases items.len(),
{
    if items.len() == 0 {
        lemma_extends_refl(st);
    } else {
        lemma_check_items_extends(st, items.drop_last());
        let st1 = check_items(st, items.drop_last());
        match items.last() {
            SpecItem::Function(f) => lemma_check_function_extends(st1, f),
            SpecItem::FunctionDecl(_) => lemma_extends_refl(st1),
        }
        lemma_extends_trans(st, st1, check_items(st, items));
    }
}

proof fn lemma_declare_items_extends(st: AnalysisState, items: Seq<SpecItem>)
    requires
        st.scopes.len() >= 1,
    ensures
        extends(st, declare_items(st, items)),
    decreases items.len(),
{
    if items.len() == 0 {
        lemma_extends_refl(st);
    } else {
        lemma_declare_items_extends(st, items.drop_last());
        let st1 = declare_items(st, items.drop_last());
        match items.last() {
            SpecItem::Function(f) => lemma_declare_extends(st1, f.name, signature_symbol(f.name, f.ret_type, f.params)),
            SpecItem::FunctionDecl(d) => lemma_declare_extends(st1, d.name, signature_symbol(d.name, d.ret_type, d.params)),
        }
        lemma_extends_trans(st, st1, declare_items(st, items));
    }
}

/// Checking more items only adds diagnostics after those of fewer.
proof fn lemma_check_items_prefix(st: AnalysisState, items: Seq<SpecItem>, k: int, j: int)
    requires
        st.scopes.len() >= 1,
        0 <= k <= j <= items.len(),
    ensures
        extends(check_items(st, items.subrange(0, k)), check_items(st, items.subrange(0, j))),
    decreases j - k,
{
    if j == k {
        lemma_extends_refl(check_items(st, items.subrange(0, k)));
    } else {
        lemma_check_items_prefix(st, items, k, j - 1);
        let before = check_items(st, items.subrange(0, j - 1));
        assert(items.subrange(0, j).drop_last() =~= items.subrange(0, j - 1));
        lemma_check_items_extends(st, items.subrange(0, j - 1));
        match items[j - 1] {
            SpecItem::Function(f) => lemma_check_function_extends(before, f),
            SpecItem::FunctionDecl(_) => lemma_extends_refl(before),
        }
        lemma_extends_trans(check_items(st, items.subrange(0, k)), before, check_items(st, items.subrange(0, j)));
    }
}

/// A program with a function that does not return on every path fails the
/// analysis, and the diagnostics name that function.
pub proof fn lemma_missing_return_fails(p: SpecProgram, k: int)
    requires
        0 <= k < p.items.len(),
        p.items[k] is Function,
        !any_returns(p.items[k]->Function_0.body),
    ensures
        spec_analyze(p) is Err,
        spec_analyze(p)->Err_0.contains(msg_may_not_return(p.items[k]->Function_0.name)),
{
    let f = p.items[k]->Function_0;
    let items = p.items;
    let declared = declare_items(initial_state(), items);
    lemma_declare_items_extends(initial_state(), items);
    let before = check_items(declared, items.subrange(0, k));
    lemma_check_items_extends(declared, items.subrange(0, k));
    assert(items.subrange(0, k + 1).drop_last() =~= items.subrange(0, k));
    let after = check_items(declared, items.subrange(0, k + 1));
    assert(after == check_function(before, f));
    let msg = msg_may_not_return(f.name);
    assert(after.errors.last() == msg);
    lemma_check_items_prefix(declared, items, k + 1, items.len() as int);
    assert(items.subrange(0, items.len() as int) =~= items);
    let all = check_items(declared, items);
    let idx = after.errors.len() - 1;
    assert(all.errors[idx] == msg);
}

/// The statements of a decorated body, without their types.
pub open spec fn undecorated_stmts(body: Seq<SpecDecoratedStmt>) -> Seq<SpecStmt> {
    body.map_values(|d: SpecDecoratedStmt| d.stmt)
}

/// The item that a decorated item decorates.
pub open spec fn undecorated_item(d: SpecDecoratedItem) -> SpecItem {
    match d {
        SpecDecoratedItem::Function(df) => SpecItem::Function(df.function),
        SpecDecoratedItem::FunctionDecl(x) => SpecItem::FunctionDecl(x),
    }
}

/// A decorated function's body decorates exactly the function's statements.
pub open spec fn body_matches(d: SpecDecoratedItem) -> bool {
    match d {
        SpecDecoratedItem::Function(df) => undecorated_stmts(df.body) == df.function.body,
        SpecDecoratedItem::FunctionDecl(_) => true,
    }
}

proof fn lemma_decorate_stmts(st: AnalysisState, ctx: CheckContext, stmts: Seq<SpecStmt>)
    ensures
        undecorated_stmts(decorate_stmts(st, ctx, stmts)) == stmts,
    decreases stmts.len(),
{
    if stmts.len() > 0 {
        lemma_decorate_stmts(st, ctx, stmts.drop_last());
        assert(undecorated_stmts(decorate_stmts(st, ctx, stmts)) =~= undecorated_stmts(
            decorate_stmts(st, ctx, stmts.drop_last()),
        ).push(stmts.last()));
        assert(stmts.drop_last().push(stmts.last()) =~= stmts);
    }
}

proof fn lemma_decorate_items(st: AnalysisState, items: Seq<SpecItem>)
    ensures
        decorate_items(st, items).map_values(|d: SpecDecoratedItem| undecorated_item(d)) == items,
        forall|i: int| 0 <= i < items.len() ==> body_matches(#[trigger] decorate_items(st, items)[i]),
    decreases items.len(),
{
    if items.len() > 0 {
        let rest = items.drop_last();
        lemma_decorate_items(st, rest);
        let last = decorate_item(check_items(st, rest), items.last());
        match items.last() {
            SpecItem::Function(f) => lemma_decorate_stmts(
                function_entry(check_items(st, rest), f),
                function_context(f),
                f.body,
            ),
            SpecItem::FunctionDecl(_) => {},
        }
        let d = decorate_items(st, items);
        assert(d == decorate_items(st, rest).push(last));
        assert(d.map_values(|d: SpecDecoratedItem| undecorated_item(d)) =~= decorate_items(st, rest).map_values(
            |d: SpecDecoratedItem| undecorated_item(d),
        ).push(undecorated_item(last)));
        assert(rest.push(items.last()) =~= items);
        assert forall|i: int| 0 <= i < items.len() implies body_matches(#[trigger] d[i]) by {
            if i < items.len() - 1 {
                assert(d[i] == decorate_items(st, rest)[i]);
            }
        }
    }
}

/// A successful analysis gives back the program's items, in order, each
/// function with the statements of its body; a failed one gives at least
/// one diagnostic.
pub proof fn lemma_analysis_keeps_program(p: SpecProgram)
    ensures
        spec_analyze(p) matches Ok(d) ==> d.items.map_values(|x: SpecDecoratedItem| undecorated_item(x)) == p.items
            && forall|i: int| 0 <= i < d.items.len() ==> body_matches(#[trigger] d.items[i]),
        spec_analyze(p) matches Err(errs) ==> errs.len() > 0,
{
    lemma_decorate_items(declare_items(initial_state(), p.items), p.items);
}

/// A do-while statement checks its body in a loop context and then its
/// condition, in the scopes the body leaves: its diagnostics are the body's
/// followed by those of the condition.
pub proof fn lemma_do_while_checks_condition(st: AnalysisState, ctx: CheckContext, body: SpecStmt, condition: SpecExpr)
    ensures
        ({
            let after_body = check_stmt(st, loop_context(ctx), body);
            let r = check_stmt(st, ctx, SpecStmt::DoWhile { body: Box::new(body), condition });
            &&& r.errors == after_body.errors + expr_errors(after_body.scopes, condition)
            &&& r.scopes == after_body.scopes
        }),
{
}

/// An undeclared name in the condition of a do-while statement is reported,
/// after whatever the body reports.
pub proof fn lemma_do_while_reports_undeclared_condition(
    st: AnalysisState,
    ctx: CheckContext,
    body: SpecStmt,
    name: Seq<char>,
)
    requires
        env_lookup(check_stmt(st, loop_context(ctx), body).scopes, name) is None,
    ensures
        check_stmt(st, ctx, SpecStmt::DoWhile { body: Box::new(body), condition: SpecExpr::Identifier(name) }).errors
            == check_stmt(st, loop_context(ctx), body).errors.push(msg_undeclared_identifier(name)),
        check_stmt(st, ctx, SpecStmt::DoWhile { body: Box::new(body), condition: SpecExpr::Identifier(name) }).errors.contains(
            msg_undeclared_identifier(name),
        ),
{
    let after_body = check_stmt(st, loop_context(ctx), body);
    let r = check_stmt(st, ctx, SpecStmt::DoWhile { body: Box::new(body), condition: SpecExpr::Identifier(name) });
    assert(r.errors =~= after_body.errors.push(msg_undeclared_identifier(name)));
    assert(r.errors[after_body.errors.len() as int] == msg_undeclared_identifier(name));
}

/// An `if` with an `else` returns on every path only when both branches do;
/// an `if` without `else` never does.
pub proof fn lemma_if_returns_only_if_both_branches(condition: SpecExpr, b_then: SpecStmt, b_else: Option<SpecStmt>)
    ensures
        stmt_always_returns(
            SpecStmt::If {
                condition,
                b_then: Box::new(b_then),
                b_else: match b_else {
                    Some(b) => Some(Box::new(b)),
                    None => None,
                },
            },
        ) <==> (b_else matches Some(b) && stmt_always_returns(b_then) && stmt_always_returns(b)),
{
}

/// A sequence of statements returns on every path exactly when one of its
/// statements does.
pub proof fn lemma_any_returns_iff_some(stmts: Seq<SpecStmt>)
    ensures
        any_returns(stmts) <==> exists|i: int| 0 <= i < stmts.len() && #[trigger] stmt_always_returns(stmts[i]),
    decreases stmts.len(),
{
    if stmts.len() > 0 {
        let rest = stmts.drop_last();
        lemma_any_returns_iff_some(rest);
        let last = stmts.len() - 1;
        assert(stmts.last() == stmts[last]);
        if stmt_always_returns(stmts[last]) {
            assert(0 <= last < stmts.len() && stmt_always_returns(stmts[last]));
        }
        if any_returns(rest) {
            let i = choose|i: int| 0 <= i < rest.len() && #[trigger] stmt_always_returns(rest[i]);
            assert(stmts[i] == rest[i]);
        }
        if exists|i: int| 0 <= i < stmts.len() && #[trigger] stmt_always_returns(stmts[i]) {
            let i = choose|i: int| 0 <= i < stmts.len() && #[trigger] stmt_always_returns(stmts[i]);
            if i < stmts.len() - 1 {
                assert(rest[i] == stmts[i]);
            }
        }
    }
}

/// A function whose body has no statement that returns on every path, such
/// as one whose only `return` stands in one branch of an `if`/`else`, fails
/// the analysis with the diagnostic that names it.
pub proof fn lemma_function_without_returning_statement_fails(p: SpecProgram, k: int)
    requires
        0 <= k < p.items.len(),
        p.items[k] is Function,
        forall|i: int|
            0 <= i < p.items[k]->Function_0.body.len() ==> !stmt_always_returns(
                #[trigger] p.items[k]->Function_0.body[i],
            ),
    ensures
        spec_analyze(p) is Err,
        spec_analyze(p)->Err_0.contains(msg_may_not_return(p.items[k]->Function_0.name)),
{
    lemma_any_returns_iff_some(p.items[k]->Function_0.body);
    lemma_missing_return_fails(p, k);
}

/// A `break` is reported exactly when it stands outside every loop and
/// switch; a `continue` exactly when it stands outside every loop. Neither
/// changes the scopes.
pub proof fn lemma_jump_placement(st: AnalysisState, ctx: CheckContext)
    ensures
        check_stmt(st, ctx, SpecStmt::Break).scopes == st.scopes,
        check_stmt(st, ctx, SpecStmt::Break).errors == if ctx.in_loop || ctx.in_switch {
            st.errors
        } else {
            st.errors.push("'break' used outside of a loop or switch"@)
        },
        check_stmt(st, ctx, SpecStmt::Continue).scopes == st.scopes,
        check_stmt(st, ctx, SpecStmt::Continue).errors == if ctx.in_loop {
            st.errors
        } else {
            st.errors.push("'continue' used outside of a loop"@)
        },
{
}

/// The body of a `while`, `do`-`while` or `for` is checked inside a loop and
/// the cases of a `switch` inside a switch, whatever the context around
/// them; the return type is passed on unchanged.
pub proof fn lemma_loops_and_switches_set_context(
    st: AnalysisState,
    ctx: CheckContext,
    condition: SpecExpr,
    body: SpecStmt,
    cases: Seq<SpecSwitchCase>,
)
    ensures
        check_stmt(st, ctx, SpecStmt::While { condition, body: Box::new(body) }) == check_stmt(
            AnalysisState { scopes: st.scopes, errors: st.errors + expr_errors(st.scopes, condition) },
            CheckContext { ret: ctx.ret, in_loop: true, in_switch: ctx.in_switch },
            body,
        ),
        check_stmt(st, ctx, SpecStmt::Switch { cond: condition, cases }) == check_cases(
            AnalysisState { scopes: st.scopes, errors: st.errors + expr_errors(st.scopes, condition) },
            CheckContext { ret: ctx.ret, in_loop: ctx.in_loop, in_switch: true },
            cases,
        ),
{
}

/// A `break` or `continue` that is the body of a `while` is never reported:
/// only the condition's diagnostics are added.
pub proof fn lemma_jump_in_while_accepted(st: AnalysisState, ctx: CheckContext, condition: SpecExpr)
    ensures
        check_stmt(st, ctx, SpecStmt::While { condition, body: Box::new(SpecStmt::Break) }).errors
            == st.errors + expr_errors(st.scopes, condition),
        check_stmt(st, ctx, SpecStmt::While { condition, body: Box::new(SpecStmt::Continue) }).errors
            == st.errors + expr_errors(st.scopes, condition),
{
    reveal_with_fuel(check_stmt, 2);
}

/// The condition of an `if` is checked before its branches, in the scopes
/// before the statement; then the `then` branch, then the `else` branch.
pub proof fn lemma_if_checks_condition_then_branches(
    st: AnalysisState,
    ctx: CheckContext,
    condition: SpecExpr,
    b_then: SpecStmt,
    b_else: SpecStmt,
)
    ensures
        ({
            let mid = AnalysisState { scopes: st.scopes, errors: st.errors + expr_errors(st.scopes, condition) };
            check_stmt(
                st,
                ctx,
                SpecStmt::If { condition, b_then: Box::new(b_then), b_else: Some(Box::new(b_else)) },
            ) == check_stmt(check_stmt(mid, ctx, b_then), ctx, b_else)
        }),
{
}

/// A declaration checks its initial value in the scopes before it, so the
/// value cannot use the name being declared; a new name is then found with
/// the declared type.
pub proof fn lemma_declaration_after_value(
    st: AnalysisState,
    ctx: CheckContext,
    var_type: Type,
    name: Seq<char>,
    value: SpecExpr,
)
    requires
        st.scopes.len() >= 1,
        scope_find(st.scopes.last(), name) is None,
    ensures
        ({
            let r = check_stmt(st, ctx, SpecStmt::VarDeclaration { var_type, name, value: Some(value) });
            &&& r.errors == st.errors + expr_errors(st.scopes, value)
            &&& env_lookup(r.scopes, name) == Some(SpecSymbol { name, ty: var_type, kind: SpecKind::Variable })
        }),
{
    let st1 = check_expr(st, value);
    lemma_lookup_after_declare(st1, name, SpecSymbol { name, ty: var_type, kind: SpecKind::Variable });
}

/// A `return` with a value reports the value's diagnostics and then a
/// mismatch exactly when the value's type differs from the function's; a
/// `return` without one is always reported.
pub proof fn lemma_return_checks_type(st: AnalysisState, ctx: CheckContext, value: SpecExpr)
    ensures
        check_stmt(st, ctx, SpecStmt::ReturnStmt(Some(value))).errors == st.errors + expr_errors(st.scopes, value) + if expr_type(
            st.scopes,
            value,
        ) == ctx.ret {
            Seq::<Seq<char>>::empty()
        } else {
            seq![
                "Return type mismatch: expected "@ + type_label(ctx.ret) + ", found "@ + type_label(
                    expr_type(st.scopes, value),
                ),
            ]
        },
        check_stmt(st, ctx, SpecStmt::ReturnStmt(None)).errors == st.errors.push(
            "Missing return value, expected "@ + type_label(ctx.ret),
        ),
{
}

/// An identifier that no scope declares is reported and typed `Int`; a
/// declared one is typed as declared and not reported.
pub proof fn lemma_identifier_resolution(scopes: Seq<Seq<SpecSymbol>>, name: Seq<char>)
    ensures
        env_lookup(scopes, name) is None ==> expr_errors(scopes, SpecExpr::Identifier(name)) == seq![
            "Undeclared identifier '"@ + name + "'"@,
        ] && expr_type(scopes, SpecExpr::Identifier(name)) == Type::Int,
        env_lookup(scopes, name) matches Some(sym) ==> expr_errors(scopes, SpecExpr::Identifier(name)).len() == 0
            && expr_type(scopes, SpecExpr::Identifier(name)) == sym.ty,
{
}

/// A binary expression is typed as its left operand and reports a mismatch
/// after its operands' diagnostics exactly when the operand types differ.
pub proof fn lemma_binary_types(scopes: Seq<Seq<SpecSymbol>>, left: SpecExpr, op: Seq<char>, right: SpecExpr)
    ensures
        ({
            let e = SpecExpr::BinaryOp { left: Box::new(left), op, right: Box::new(right) };
            let lt = expr_type(scopes, left);
            let rt = expr_type(scopes, right);
            &&& expr_type(scopes, e) == lt
            &&& expr_errors(scopes, e) == expr_errors(scopes, left) + expr_errors(scopes, right) + if lt == rt {
                Seq::<Seq<char>>::empty()
            } else {
                seq!["Type mismatch in binary expression: "@ + type_label(lt) + " vs "@ + type_label(rt)]
            }
        }),
{
}

/// Names are looked up from the innermost scope out: a name declared in the
/// innermost scope hides any outer declaration.
pub proof fn lemma_innermost_declaration_wins(scopes: Seq<Seq<SpecSymbol>>, name: Seq<char>, sym: SpecSymbol)
    requires
        scopes.len() >= 1,
        scope_find(scopes.last(), name) == Some(sym),
    ensures
        env_lookup(scopes, name) == Some(sym),
{
}

/// A name declared in a nested block may repeat one of an enclosing scope
/// without a redeclaration being reported.
pub proof fn lemma_shadowing_allowed(st: AnalysisState, name: Seq<char>, sym: SpecSymbol)
    ensures
        declare(push_scope(st), name, sym).errors == st.errors,
{
}

/// A loop or a switch never counts as returning on every path, whatever
/// its body holds; nor do declarations, expressions, `break` and `continue`.
pub proof fn lemma_loops_never_always_return(
    condition: SpecExpr,
    body: SpecStmt,
    init: Option<Box<SpecStmt>>,
    update: Option<SpecExpr>,
    cases: Seq<SpecSwitchCase>,
    var_type: Type,
    name: Seq<char>,
    value: Option<SpecExpr>,
)
    ensures
        !stmt_always_returns(SpecStmt::While { condition, body: Box::new(body) }),
        !stmt_always_returns(SpecStmt::DoWhile { body: Box::new(body), condition }),
        !stmt_always_returns(SpecStmt::For { init, condition, update, body: Box::new(body) }),
        !stmt_always_returns(SpecStmt::Switch { cond: condition, cases }),
        !stmt_always_returns(SpecStmt::VarDeclaration { var_type, name, value }),
        !stmt_always_returns(SpecStmt::Expr(condition)),
        !stmt_always_returns(SpecStmt::Break),
        !stmt_always_returns(SpecStmt::Continue),
        stmt_always_returns(SpecStmt::ReturnStmt(value)),
{
}

/// A call of an unknown name, or of a name that is no function, reports
/// exactly that and is typed `Int`; its arguments are not checked.
pub proof fn lemma_call_of_non_function(scopes: Seq<Seq<SpecSymbol>>, callee: Seq<char>, args: Seq<SpecExpr>)
    ensures
        env_lookup(scopes, callee) is None ==> expr_errors(scopes, SpecExpr::FunCall { callee, args }) == seq![
            "Undeclared function '"@ + callee + "'"@,
        ] && expr_type(scopes, SpecExpr::FunCall { callee, args }) == Type::Int,
        env_lookup(scopes, callee) matches Some(sym) && !(sym.kind is Function) ==> expr_errors(
            scopes,
            SpecExpr::FunCall { callee, args },
        ) == seq!["'"@ + callee + "' is not a function"@] && expr_type(scopes, SpecExpr::FunCall { callee, args })
            == Type::Int,
{
    assert(expr_errors(scopes, SpecExpr::FunCall { callee, args }) == call_errors(scopes, callee, args));
    reveal_with_fuel(call_errors, 1);
}

/// A call of a declared function is typed by the function's return type; it
/// first reports a wrong number of arguments, then for each argument in turn
/// its own diagnostics and a mismatch with the declared parameter type,
/// numbered from one.
pub proof fn lemma_call_of_function(
    scopes: Seq<Seq<SpecSymbol>>,
    callee: Seq<char>,
    args: Seq<SpecExpr>,
    params: Seq<Type>,
    return_value: Type,
)
    requires
        env_lookup(scopes, callee) matches Some(sym) && sym.kind == (SpecKind::Function { params, return_value }),
    ensures
        expr_type(scopes, SpecExpr::FunCall { callee, args }) == return_value,
        expr_errors(scopes, SpecExpr::FunCall { callee, args }) == (if params.len() == args.len() {
            Seq::<Seq<char>>::empty()
        } else {
            seq![
                "Function '"@ + callee + "' expects "@ + decimal(params.len()) + " argument(s), found "@ + decimal(
                    args.len(),
                ),
            ]
        }) + args_errors(scopes, callee, params, args),
{
    assert(expr_errors(scopes, SpecExpr::FunCall { callee, args }) == call_errors(scopes, callee, args));
    reveal_with_fuel(call_errors, 1);
}

/// The diagnostics of the arguments grow one argument at a time: those of
/// the new argument, then a mismatch when a parameter stands at its place
/// with another type.
pub proof fn lemma_argument_checks(
    scopes: Seq<Seq<SpecSymbol>>,
    callee: Seq<char>,
    params: Seq<Type>,
    args: Seq<SpecExpr>,
    arg: SpecExpr,
)
    ensures
        args_errors(scopes, callee, params, args.push(arg)) == args_errors(scopes, callee, params, args) + expr_errors(
            scopes,
            arg,
        ) + if args.len() < params.len() && params[args.len() as int] != expr_type(scopes, arg) {
            seq![
                "Argument "@ + decimal(args.len() + 1) + " of '"@ + callee + "' expected type "@ + type_label(
                    params[args.len() as int],
                ) + ", found "@ + type_label(expr_type(scopes, arg)),
            ]
        } else {
            Seq::<Seq<char>>::empty()
        },
{
    assert(args.push(arg).drop_last() =~= args);
}

/// An assignment reports a target that is no variable first, then the
/// diagnostics of the target and of the value, then a type mismatch; it is
/// typed as its target.
pub proof fn lemma_assignment_checks(scopes: Seq<Seq<SpecSymbol>>, target: SpecExpr, op: Seq<char>, value: SpecExpr)
    ensures
        ({
            let e = SpecExpr::Assignment { target: Box::new(target), op, value: Box::new(value) };
            let tt = expr_type(scopes, target);
            let vt = expr_type(scopes, value);
            &&& expr_type(scopes, e) == tt
            &&& expr_errors(scopes, e) == (if target is Identifier {
                Seq::<Seq<char>>::empty()
            } else {
                seq!["Left-hand side of assignment must be a variable"@]
            }) + expr_errors(scopes, target) + expr_errors(scopes, value) + if tt == vt {
                Seq::<Seq<char>>::empty()
            } else {
                seq!["Cannot assign value of type "@ + type_label(vt) + " to variable of type "@ + type_label(tt)]
            }
        }),
{
}

/// Literals are typed by their kind and report nothing; a unary operation
/// is typed as its operand and reports what the operand reports.
pub proof fn lemma_literal_and_unary_types(scopes: Seq<Seq<SpecSymbol>>, v: i32, c: char, text: Seq<char>, op: Seq<char>, e: SpecExpr)
    ensures
        expr_type(scopes, SpecExpr::IntegerLit(v)) == Type::Int,
        expr_type(scopes, SpecExpr::CharLit(c)) == Type::Char,
        expr_type(scopes, SpecExpr::StringLit(text)) == Type::String,
        expr_errors(scopes, SpecExpr::IntegerLit(v)).len() == 0,
        expr_errors(scopes, SpecExpr::CharLit(c)).len() == 0,
        expr_errors(scopes, SpecExpr::StringLit(text)).len() == 0,
        expr_type(scopes, SpecExpr::UnaryOp { op, expr: Box::new(e) }) == expr_type(scopes, e),
        expr_errors(scopes, SpecExpr::UnaryOp { op, expr: Box::new(e) }) == expr_errors(scopes, e),
{
}

/// A `for` checks, in a scope of its own, its initializer, then its
/// condition and its update in the scopes the initializer leaves, then its
/// body inside a loop; afterwards the scopes are those from before it.
pub proof fn lemma_for_checks_header_then_body(
    st: AnalysisState,
    ctx: CheckContext,
    init: SpecStmt,
    condition: SpecExpr,
    update: SpecExpr,
    body: SpecStmt,
)
    requires
        st.scopes.len() >= 1,
    ensures
        ({
            let inner = AnalysisState { scopes: st.scopes.push(Seq::empty()), errors: st.errors };
            let after_init = check_stmt(inner, ctx, init);
            let after_header = AnalysisState {
                scopes: after_init.scopes,
                errors: after_init.errors + expr_errors(after_init.scopes, condition) + expr_errors(
                    after_init.scopes,
                    update,
                ),
            };
            let after_body = check_stmt(
                after_header,
                CheckContext { ret: ctx.ret, in_loop: true, in_switch: ctx.in_switch },
                body,
            );
            let r = check_stmt(
                st,
                ctx,
                SpecStmt::For {
                    init: Some(Box::new(init)),
                    condition,
                    update: Some(update),
                    body: Box::new(body),
                },
            );
            &&& r.errors == after_body.errors
            &&& r.scopes == st.scopes
        }),
{
    let s = SpecStmt::For { init: Some(Box::new(init)), condition, update: Some(update), body: Box::new(body) };
    lemma_block_scope_is_discarded(st, ctx, s);
    let inner = AnalysisState { scopes: st.scopes.push(Seq::empty()), errors: st.errors };
    let after_init = check_stmt(inner, ctx, init);
    assert(after_init.errors + expr_errors(after_init.scopes, condition) + expr_errors(after_init.scopes, update)
        =~= (after_init.errors + expr_errors(after_init.scopes, condition)) + expr_errors(after_init.scopes, update));
}

} // verus!
