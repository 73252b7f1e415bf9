use vstd::prelude::*;

use crate::ast::{
    cases_view, exprs_view, params_view, stmts_view, Expr, Function, Item, Param, Program, SpecExpr,
    SpecItem, SpecParam, SpecStmt, SpecSwitchCase, Stmt, SwitchCase,
    Type,
};
use crate::grammar::{
    lemma_unfold_binary, lemma_unfold_binary_rest, lemma_unfold_call_args,
    lemma_unfold_call_args_rest, lemma_unfold_expression, lemma_unfold_identifier_or_call,
    lemma_unfold_operand, lemma_unfold_postfix, lemma_unfold_postfix_rest, lemma_unfold_primary,
    lemma_unfold_unary, lemma_unfold_statement, lemma_unfold_block, lemma_unfold_block_items,
    lemma_unfold_if_stmt, lemma_unfold_while_stmt, lemma_unfold_do_while_rest,
    lemma_unfold_for_stmt, lemma_unfold_switch_stmt, lemma_unfold_switch_cases,
    lemma_unfold_case_body, lemma_statement_progress, spec_block, spec_block_items, spec_if_stmt,
    spec_while_stmt, spec_do_while_rest, spec_for_stmt, spec_switch_stmt, spec_switch_cases,
    spec_case_body, spec_type, spec_var_declaration, spec_return_stmt, spec_jump_stmt,
    spec_expr_stmt, spec_param, spec_params, spec_params_rest, spec_function_body, spec_function,
    spec_items, spec_parse_program, assign_op, level_op, postfix_op, prefix_op, rem, shift, spec_binary,
    spec_binary_rest, spec_call_args, spec_call_args_rest, spec_expression, spec_identifier_or_call,
    spec_operand, spec_postfix, spec_postfix_rest, spec_primary, spec_statement, spec_unary, tok,
    Expected, ParseError, PRes, expected_phrase, parse_error_message, lemma_items_are_functions,
};
use crate::lexer::{SpecToken, TokenType};
use crate::text::{token_text, token_text_of};

verus! {

// ---------------------------------------------------------------------------
// The parser.

/// The model of what a parsing function returned when it started at `p`.
pub open spec fn res_view<T: View>(r: Result<(T, usize), ParseError>, p: usize) -> PRes<T::V> {
    match r {
        Ok((x, q)) => Ok((x@, (q - p) as nat)),
        Err(e) => Err(e),
    }
}

pub open spec fn exprs_res_view(r: Result<(Vec<Expr>, usize), ParseError>, p: usize) -> PRes<Seq<SpecExpr>> {
    match r {
        Ok((x, q)) => Ok((exprs_view(x@), (q - p) as nat)),
        Err(e) => Err(e),
    }
}

pub open spec fn stmts_res_view(r: Result<(Vec<Stmt>, usize), ParseError>, p: usize) -> PRes<Seq<SpecStmt>> {
    match r {
        Ok((x, q)) => Ok((stmts_view(x@), (q - p) as nat)),
        Err(e) => Err(e),
    }
}

pub open spec fn cases_res_view(r: Result<(Vec<SwitchCase>, usize), ParseError>, p: usize) -> PRes<Seq<SpecSwitchCase>> {
    match r {
        Ok((x, q)) => Ok((cases_view(x@), (q - p) as nat)),
        Err(e) => Err(e),
    }
}

pub open spec fn params_res_view(r: Result<(Vec<Param>, usize), ParseError>, p: usize) -> PRes<Seq<SpecParam>> {
    match r {
        Ok((x, q)) => Ok((params_view(x@), (q - p) as nat)),
        Err(e) => Err(e),
    }
}

/// True when the string `s` is the one-character operator `a`.
fn op1(s: &String, a: char) -> (r: bool)
    ensures
        r == (s@ == seq![a]),
{
    let mut w = String::new();
    crate::lexer::push_char(&mut w, a);
    assert(w@ =~= seq![a]);
    *s == w
}

/// True when the string `s` is the two-character operator `a b`.
fn op2(s: &String, a: char, b: char) -> (r: bool)
    ensures
        r == (s@ == seq![a, b]),
{
    let mut w = String::new();
    crate::lexer::push_char(&mut w, a);
    crate::lexer::push_char(&mut w, b);
    assert(w@ =~= seq![a, b]);
    *s == w
}

fn is_level_op(level: u8, op: &String) -> (r: bool)
    ensures
        r == level_op(level as nat, op@),
{
    if level == 0 {
        op1(op, '*') || op1(op, '/') || op1(op, '%')
    } else if level == 1 {
        op1(op, '+') || op1(op, '-')
    } else if level == 2 {
        op1(op, '<') || op2(op, '<', '=') || op1(op, '>') || op2(op, '>', '=')
    } else if level == 3 {
        op2(op, '=', '=') || op2(op, '!', '=')
    } else {
        op2(op, '&', '&')
    }
}

fn is_assign_op(op: &String) -> (r: bool)
    ensures
        r == assign_op(op@),
{
    op1(op, '=') || op2(op, '+', '=') || op2(op, '-', '=')
}

fn is_prefix_op(op: &String) -> (r: bool)
    ensures
        r == prefix_op(op@),
{
    op1(op, '-') || op1(op, '!') || op2(op, '+', '+') || op2(op, '-', '-')
}

fn is_postfix_op(op: &String) -> (r: bool)
    ensures
        r == postfix_op(op@),
{
    op2(op, '+', '+') || op2(op, '-', '-')
}

/// Reads a sequence of tokens into the syntax tree of a program.
#[derive(Debug, PartialEq, Clone)]
pub struct Parser {
    tokens: Vec<TokenType>,
    position: usize,
}

impl Parser {
    /// The models of the tokens.
    pub closed spec fn toks(&self) -> Seq<SpecToken> {
        self.tokens@.map_values(|t: TokenType| t@)
    }

    /// The index of the next token to read.
    pub closed spec fn pos(&self) -> nat {
        self.position as nat
    }

    /// A parser at the start of `tokens`.
    pub fn new(tokens: Vec<TokenType>) -> (r: Self)
        ensures
            r.toks() == tokens@.map_values(|t: TokenType| t@),
            r.pos() == 0,
    {
        Parser { tokens, position: 0 }
    }

    fn peek(&self, pos: usize) -> (r: Option<&TokenType>)
        ensures
            match r {
                Some(x) => tok(self.toks(), pos as nat) == Some(x@),
                None => tok(self.toks(), pos as nat) is None,
            },
            r is Some ==> pos < self.tokens.len(),
            self.toks().len() == self.tokens.len(),
    {
        if pos < self.tokens.len() {
            Some(&self.tokens[pos])
        } else {
            None
        }
    }

    fn parse_primary(&self, pos: usize) -> (r: Result<(Expr, usize), ParseError>)
        requires
            spec_primary(self.toks(), pos as nat) is Ok,
        ensures
            res_view(r, pos) == spec_primary(self.toks(), pos as nat),
            r matches Ok((_, q)) ==> pos <= q <= self.toks().len(),
        decreases rem(self.toks(), pos as nat), 1nat, 2nat,
    {
        proof {
            lemma_unfold_primary(self.toks(), pos as nat);
        }
        match self.peek(pos) {
            Some(TokenType::IntegerLiteral(v)) => Ok((Expr::IntegerLit(*v), pos + 1)),
            Some(TokenType::CharLiteral(c)) => Ok((Expr::CharLit(*c), pos + 1)),
            Some(TokenType::StringLiteral(s)) => Ok((Expr::StringLit(s.clone()), pos + 1)),
            Some(TokenType::Identifier(name)) => self.parse_identifier_or_call(pos, name),
            Some(TokenType::OpenParentheses) => {
                let (e, q) = self.parse_expression(pos + 1)?;
                match self.peek(q) {
                    Some(TokenType::ClosedParentheses) => Ok((e, q + 1)),
                    _ => Err(ParseError { expected: Expected::CloseParen, position: q }),
                }
            },
            _ => Err(ParseError { expected: Expected::Expression, position: pos }),
        }
    }

    fn parse_identifier_or_call(&self, pos: usize, name: &String) -> (r: Result<(Expr, usize), ParseError>)
        requires
            pos < self.tokens.len(),
            spec_identifier_or_call(self.toks(), pos as nat, name@) is Ok,
        ensures
            res_view(r, pos) == spec_identifier_or_call(self.toks(), pos as nat, name@),
            r matches Ok((_, q)) ==> pos <= q <= self.toks().len(),
        decreases rem(self.toks(), pos as nat), 1nat, 1nat,
    {
        proof {
            lemma_unfold_identifier_or_call(self.toks(), pos as nat, name@);
        }
        let ghost t = self.toks();
        if let Some(TokenType::OpenParentheses) = self.peek(pos + 1) {
            let (args, q) = match self.parse_call_args(pos + 2) {
                Ok(x) => x,
                Err(e) => {
                    return Err(e);
                },
            };
            match self.peek(q) {
                Some(TokenType::ClosedParentheses) => {
                    let r = Expr::FunCall { callee: name.clone(), args };
                    Ok((r, q + 1))
                },
                _ => Err(ParseError { expected: Expected::CloseParenAfterCallArgs, position: q }),
            }
        } else {
            Ok((Expr::Identifier(name.clone()), pos + 1))
        }
    }

    fn parse_call_args(&self, pos: usize) -> (r: Result<(Vec<Expr>, usize), ParseError>)
        requires
            spec_call_args(self.toks(), pos as nat) is Ok,
        ensures
            exprs_res_view(r, pos) == spec_call_args(self.toks(), pos as nat),
            r matches Ok((_, q)) ==> pos <= q <= self.toks().len(),
        decreases rem(self.toks(), pos as nat), 12nat, 0nat,
    {
        proof {
            lemma_unfold_call_args(self.toks(), pos as nat);
        }
        let mut args: Vec<Expr> = Vec::new();
        if let Some(TokenType::ClosedParentheses) = self.peek(pos) {
            return Ok((args, pos));
        }
        let (first, mut q) = self.parse_expression(pos)?;
        let ghost t = self.toks();
        proof {
            crate::ast::lemma_exprs_view_push(args@, first);
            assert(exprs_view(args@) =~= Seq::<SpecExpr>::empty());
        }
        args.push(first);
        assert(exprs_view(args@) =~= seq![first@]);
        loop
            invariant
                spec_call_args(self.toks(), pos as nat) is Ok,
                t == self.toks(),
                pos <= q <= self.tokens.len(),
                shift(spec_call_args_rest(t, q as nat, exprs_view(args@)), (q - pos) as nat)
                    == spec_call_args(t, pos as nat),
            decreases rem(t, q as nat),
        {
            proof {
                lemma_unfold_call_args_rest(t, q as nat, exprs_view(args@));
            }
            if let Some(TokenType::Comma) = self.peek(q) {
                let (e, q2) = self.parse_expression(q + 1)?;
                proof {
                    crate::ast::lemma_exprs_view_push(args@, e);
                }
                args.push(e);
                q = q2;
            } else {
                return Ok((args, q));
            }
        }
    }

    fn parse_expression(&self, pos: usize) -> (r: Result<(Expr, usize), ParseError>)
        requires
            spec_expression(self.toks(), pos as nat) is Ok,
        ensures
            res_view(r, pos) == spec_expression(self.toks(), pos as nat),
            r matches Ok((_, q)) ==> pos <= q <= self.toks().len(),
        decreases rem(self.toks(), pos as nat), 11nat, 0nat,
    {
        proof {
            lemma_unfold_expression(self.toks(), pos as nat);
        }
        let (lhs, q) = self.parse_binary(pos, 4)?;
        if let Some(TokenType::Operator(op)) = self.peek(q) {
            if is_assign_op(op) {
                let (value, q2) = self.parse_expression(q + 1)?;
                return Ok((
                    Expr::Assignment { target: Box::new(lhs), op: op.clone(), value: Box::new(value) },
                    q2,
                ));
            }
        }
        Ok((lhs, q))
    }

    /// The binary operators of one precedence level (0: `* / %`, 1: `+ -`,
    /// 2: `< <= > >=`, 3: `== !=`, 4: `&&`), grouped to the left.
    fn parse_binary(&self, pos: usize, level: u8) -> (r: Result<(Expr, usize), ParseError>)
        requires
            level <= 4,
            spec_binary(self.toks(), pos as nat, level as nat) is Ok,
        ensures
            res_view(r, pos) == spec_binary(self.toks(), pos as nat, level as nat),
            r matches Ok((_, q)) ==> pos <= q <= self.toks().len(),
        decreases rem(self.toks(), pos as nat), 5 + level, 0nat,
    {
        proof {
            lemma_unfold_binary(self.toks(), pos as nat, level as nat);
        }
        let (mut lhs, mut q) = self.parse_operand(pos, level)?;
        let ghost t = self.toks();
        loop
            invariant
                spec_binary(self.toks(), pos as nat, level as nat) is Ok,
                t == self.toks(),
                level <= 4,
                pos <= q <= self.tokens.len(),
                shift(spec_binary_rest(t, q as nat, level as nat, lhs@), (q - pos) as nat)
                    == spec_binary(t, pos as nat, level as nat),
            decreases rem(t, q as nat),
        {
            proof {
                lemma_unfold_binary_rest(t, q as nat, level as nat, lhs@);
            }
            let next = self.peek(q);
            let op = match next {
                Some(TokenType::Operator(op)) => op,
                _ => {
                    return Ok((lhs, q));
                },
            };
            if !is_level_op(level, op) {
                return Ok((lhs, q));
            }
            let (rhs, q2) = self.parse_operand(q + 1, level)?;
            lhs = Expr::BinaryOp { left: Box::new(lhs), op: op.clone(), right: Box::new(rhs) };
            q = q2;
        }
    }

    fn parse_operand(&self, pos: usize, level: u8) -> (r: Result<(Expr, usize), ParseError>)
        requires
            level <= 4,
            spec_operand(self.toks(), pos as nat, level as nat) is Ok,
        ensures
            res_view(r, pos) == spec_operand(self.toks(), pos as nat, level as nat),
            r matches Ok((_, q)) ==> pos <= q <= self.toks().len(),
        decreases rem(self.toks(), pos as nat), 4 + level, 1nat,
    {
        proof {
            lemma_unfold_operand(self.toks(), pos as nat, level as nat);
        }
        if level == 0 {
            self.parse_unary(pos)
        } else {
            self.parse_binary(pos, level - 1)
        }
    }

    fn parse_unary(&self, pos: usize) -> (r: Result<(Expr, usize), ParseError>)
        requires
            spec_unary(self.toks(), pos as nat) is Ok,
        ensures
            res_view(r, pos) == spec_unary(self.toks(), pos as nat),
            r matches Ok((_, q)) ==> pos <= q <= self.toks().len(),
        decreases rem(self.toks(), pos as nat), 4nat, 0nat,
    {
        proof {
            lemma_unfold_unary(self.toks(), pos as nat);
        }
        if let Some(TokenType::Operator(op)) = self.peek(pos) {
            if is_prefix_op(op) {
                let (e, q) = self.parse_unary(pos + 1)?;
                return Ok((Expr::UnaryOp { op: op.clone(), expr: Box::new(e) }, q));
            }
        }
        self.parse_postfix(pos)
    }

    fn parse_postfix(&self, pos: usize) -> (r: Result<(Expr, usize), ParseError>)
        requires
            spec_postfix(self.toks(), pos as nat) is Ok,
        ensures
            res_view(r, pos) == spec_postfix(self.toks(), pos as nat),
            r matches Ok((_, q)) ==> pos <= q <= self.toks().len(),
        decreases rem(self.toks(), pos as nat), 3nat, 0nat,
    {
        proof {
            lemma_unfold_postfix(self.toks(), pos as nat);
        }
        let (mut e, mut q) = self.parse_primary(pos)?;
        let ghost t = self.toks();
        loop
            invariant
                t == self.toks(),
                pos <= q <= self.tokens.len(),
                shift(spec_postfix_rest(t, q as nat, e@), (q - pos) as nat) == spec_postfix(t, pos as nat),
            decreases rem(t, q as nat),
        {
            proof {
                lemma_unfold_postfix_rest(t, q as nat, e@);
            }
            let next = self.peek(q);
            let op = match next {
                Some(TokenType::Operator(op)) => op,
                _ => {
                    return Ok((e, q));
                },
            };
            if !is_postfix_op(op) {
                return Ok((e, q));
            }
            e = Expr::UnaryOp { op: op.clone(), expr: Box::new(e) };
            q = q + 1;
        }
    }
}

impl Parser {
    fn parse_type(&self, pos: usize) -> (r: Result<Type, ParseError>)
        requires
            spec_type(self.toks(), pos as nat) is Ok,
        ensures
            r == spec_type(self.toks(), pos as nat),
            r is Ok ==> pos < self.tokens.len(),
    {
        match self.peek(pos) {
            Some(TokenType::Int) => Ok(Type::Int),
            Some(TokenType::Char) => Ok(Type::Char),
            _ => Err(ParseError { expected: Expected::Type, position: pos }),
        }
    }

    fn parse_statement(&self, pos: usize) -> (r: Result<(Stmt, usize), ParseError>)
        requires
            spec_statement(self.toks(), pos as nat) is Ok,
        ensures
            res_view(r, pos) == spec_statement(self.toks(), pos as nat),
            r matches Ok((_, q)) ==> pos <= q <= self.toks().len(),
        decreases rem(self.toks(), pos as nat), 3nat, 0nat,
    {
        proof {
            lemma_unfold_statement(self.toks(), pos as nat);
        }
        match self.peek(pos) {
            Some(TokenType::OpenBracket) => self.parse_block_items(pos + 1),
            Some(TokenType::Int) | Some(TokenType::Char) => self.parse_var_declaration(pos),
            Some(TokenType::Return) => self.parse_return_stmt(pos),
            Some(TokenType::If) => self.parse_if_stmt(pos),
            Some(TokenType::While) => self.parse_while_stmt(pos),
            Some(TokenType::Do) => self.parse_do_while_rest(pos + 1),
            Some(TokenType::For) => self.parse_for_stmt(pos),
            Some(TokenType::Switch) => self.parse_switch_stmt(pos),
            Some(TokenType::Break) => self.parse_jump_stmt(pos, true),
            Some(TokenType::Continue) => self.parse_jump_stmt(pos, false),
            _ => self.parse_expr_stmt(pos),
        }
    }

    /// The statements of a block whose "{" stands just before `pos`, up to its "}".
    fn parse_block_items(&self, pos: usize) -> (r: Result<(Stmt, usize), ParseError>)
        requires
            1 <= pos <= self.tokens.len(),
            spec_block_items(self.toks(), pos as nat, Seq::empty()) is Ok,
        ensures
            res_view(r, (pos - 1) as usize) == shift(spec_block_items(self.toks(), pos as nat, Seq::empty()), 1),
            r matches Ok((_, q)) ==> pos <= q <= self.toks().len(),
        decreases rem(self.toks(), pos as nat), 4nat, 0nat,
    {
        let ghost t = self.toks();
        let mut stmts: Vec<Stmt> = Vec::new();
        let mut q = pos;
        proof {
            assert(stmts_view(stmts@) =~= Seq::<SpecStmt>::empty());
        }
        loop
            invariant
                spec_block_items(self.toks(), pos as nat, Seq::empty()) is Ok,
                t == self.toks(),
                pos <= q <= self.tokens.len(),
                pos >= 1,
                shift(spec_block_items(t, q as nat, stmts_view(stmts@)), (q - pos) as nat)
                    == spec_block_items(t, pos as nat, Seq::empty()),
            decreases rem(t, q as nat),
        {
            proof {
                lemma_unfold_block_items(t, q as nat, stmts_view(stmts@));
            }
            match self.peek(q) {
                None => {
                    return Err(ParseError { expected: Expected::CloseBraceForBlock, position: q });
                },
                Some(TokenType::ClosedBracket) => {
                    return Ok((Stmt::Block(stmts), q + 1));
                },
                Some(_) => {},
            }
            let (st, q2) = self.parse_statement(q)?;
            proof {
                lemma_statement_progress(t, q as nat);
                crate::ast::lemma_stmts_view_push(stmts@, st);
            }
            stmts.push(st);
            q = q2;
        }
    }

    fn parse_block(&self, pos: usize) -> (r: Result<(Stmt, usize), ParseError>)
        requires
            spec_block(self.toks(), pos as nat) is Ok,
        ensures
            res_view(r, pos) == spec_block(self.toks(), pos as nat),
            r matches Ok((_, q)) ==> pos <= q <= self.toks().len(),
        decreases rem(self.toks(), pos as nat), 4nat, 1nat,
    {
        proof {
            lemma_unfold_block(self.toks(), pos as nat);
        }
        if let Some(TokenType::OpenBracket) = self.peek(pos) {
            self.parse_block_items(pos + 1)
        } else {
            self.parse_statement(pos)
        }
    }
}

impl Parser {
    fn expect(&self, pos: usize, t: &TokenType, expected: Expected) -> (r: Result<(), ParseError>)
        ensures
            r is Ok <==> tok(self.toks(), pos as nat) == Some(t@),
            r is Ok ==> pos < self.tokens.len(),
            r matches Err(e) ==> e == (ParseError { expected, position: pos }),
    {
        match self.peek(pos) {
            Some(x) => {
                if token_eq(x, t) {
                    Ok(())
                } else {
                    Err(ParseError { expected, position: pos })
                }
            },
            None => Err(ParseError { expected, position: pos }),
        }
    }

    fn parse_var_declaration(&self, pos: usize) -> (r: Result<(Stmt, usize), ParseError>)
        requires
            spec_var_declaration(self.toks(), pos as nat) is Ok,
        ensures
            res_view(r, pos) == spec_var_declaration(self.toks(), pos as nat),
            r matches Ok((_, q)) ==> pos <= q <= self.toks().len(),
    {
        let var_type = self.parse_type(pos)?;
        let name = match self.peek(pos + 1) {
            Some(TokenType::Identifier(name)) => name.clone(),
            _ => {
                return Err(ParseError { expected: Expected::Identifier, position: pos + 1 });
            },
        };
        let mut q = pos + 2;
        let mut value: Option<Expr> = None;
        if let Some(TokenType::Operator(op)) = self.peek(pos + 2) {
            if op1(op, '=') {
                let (v, q2) = self.parse_expression(pos + 3)?;
                value = Some(v);
                q = q2;
            }
        }
        self.expect(q, &TokenType::Semicolon, Expected::SemicolonAfterVarDeclaration)?;
        Ok((Stmt::VarDeclaration { varType: var_type, name, value }, q + 1))
    }

    fn parse_return_stmt(&self, pos: usize) -> (r: Result<(Stmt, usize), ParseError>)
        requires
            pos < self.tokens.len(),
            spec_return_stmt(self.toks(), pos as nat) is Ok,
        ensures
            res_view(r, pos) == spec_return_stmt(self.toks(), pos as nat),
            r matches Ok((_, q)) ==> pos <= q <= self.toks().len(),
    {
        if let Some(TokenType::Semicolon) = self.peek(pos + 1) {
            return Ok((Stmt::ReturnStmt(None), pos + 2));
        }
        let (v, q) = self.parse_expression(pos + 1)?;
        self.expect(q, &TokenType::Semicolon, Expected::SemicolonAfterReturn)?;
        Ok((Stmt::ReturnStmt(Some(v)), q + 1))
    }

    /// `break;` when `is_break`, else `continue;`.
    fn parse_jump_stmt(&self, pos: usize, is_break: bool) -> (r: Result<(Stmt, usize), ParseError>)
        requires
            pos < self.tokens.len(),
            (if is_break {
                spec_jump_stmt(self.toks(), pos as nat, SpecStmt::Break, Expected::SemicolonAfterBreak)
            } else {
                spec_jump_stmt(self.toks(), pos as nat, SpecStmt::Continue, Expected::SemicolonAfterContinue)
            }) is Ok,
        ensures
            res_view(r, pos) == (if is_break {
                spec_jump_stmt(self.toks(), pos as nat, SpecStmt::Break, Expected::SemicolonAfterBreak)
            } else {
                spec_jump_stmt(self.toks(), pos as nat, SpecStmt::Continue, Expected::SemicolonAfterContinue)
            }),
            r matches Ok((_, q)) ==> pos <= q <= self.toks().len(),
    {
        let missing = if is_break {
            Expected::SemicolonAfterBreak
        } else {
            Expected::SemicolonAfterContinue
        };
        self.expect(pos + 1, &TokenType::Semicolon, missing)?;
        if is_break {
            Ok((Stmt::Break, pos + 2))
        } else {
            Ok((Stmt::Continue, pos + 2))
        }
    }

    fn parse_expr_stmt(&self, pos: usize) -> (r: Result<(Stmt, usize), ParseError>)
        requires
            spec_expr_stmt(self.toks(), pos as nat) is Ok,
        ensures
            res_view(r, pos) == spec_expr_stmt(self.toks(), pos as nat),
            r matches Ok((_, q)) ==> pos <= q <= self.toks().len(),
    {
        let (e, q) = self.parse_expression(pos)?;
        self.expect(q, &TokenType::Semicolon, Expected::SemicolonAfterExpression)?;
        Ok((Stmt::Expr(e), q + 1))
    }

    fn parse_if_stmt(&self, pos: usize) -> (r: Result<(Stmt, usize), ParseError>)
        requires
            pos < self.tokens.len(),
            spec_if_stmt(self.toks(), pos as nat) is Ok,
        ensures
            res_view(r, pos) == spec_if_stmt(self.toks(), pos as nat),
            r matches Ok((_, q)) ==> pos <= q <= self.toks().len(),
        decreases rem(self.toks(), pos as nat), 2nat, 0nat,
    {
        proof {
            lemma_unfold_if_stmt(self.toks(), pos as nat);
        }
        self.expect(pos + 1, &TokenType::OpenParentheses, Expected::OpenParenAfterIf)?;
        let (condition, q) = self.parse_expression(pos + 2)?;
        self.expect(q, &TokenType::ClosedParentheses, Expected::CloseParenAfterIfCondition)?;
        let (b_then, r) = self.parse_block(q + 1)?;
        if let Some(TokenType::Else) = self.peek(r) {
            let (b_else, e) = self.parse_block(r + 1)?;
            Ok((Stmt::If { condition, b_then: Box::new(b_then), b_else: Some(Box::new(b_else)) }, e))
        } else {
            Ok((Stmt::If { condition, b_then: Box::new(b_then), b_else: None }, r))
        }
    }

    fn parse_while_stmt(&self, pos: usize) -> (r: Result<(Stmt, usize), ParseError>)
        requires
            pos < self.tokens.len(),
            spec_while_stmt(self.toks(), pos as nat) is Ok,
        ensures
            res_view(r, pos) == spec_while_stmt(self.toks(), pos as nat),
            r matches Ok((_, q)) ==> pos <= q <= self.toks().len(),
        decreases rem(self.toks(), pos as nat), 2nat, 0nat,
    {
        proof {
            lemma_unfold_while_stmt(self.toks(), pos as nat);
        }
        self.expect(pos + 1, &TokenType::OpenParentheses, Expected::OpenParenAfterWhile)?;
        let (condition, q) = self.parse_expression(pos + 2)?;
        self.expect(q, &TokenType::ClosedParentheses, Expected::CloseParenAfterWhileCondition)?;
        let (body, r) = self.parse_block(q + 1)?;
        Ok((Stmt::While { condition, body: Box::new(body) }, r))
    }

    /// A do-while statement read from its body on (just after the "do").
    fn parse_do_while_rest(&self, pos: usize) -> (r: Result<(Stmt, usize), ParseError>)
        requires
            1 <= pos <= self.tokens.len(),
            spec_do_while_rest(self.toks(), pos as nat) is Ok,
        ensures
            res_view(r, (pos - 1) as usize) == shift(spec_do_while_rest(self.toks(), pos as nat), 1),
            r matches Ok((_, q)) ==> pos <= q <= self.toks().len(),
        decreases rem(self.toks(), pos as nat), 5nat, 0nat,
    {
        proof {
            lemma_unfold_do_while_rest(self.toks(), pos as nat);
        }
        let (body, q) = self.parse_block(pos)?;
        self.expect(q, &TokenType::While, Expected::WhileAfterDoBody)?;
        self.expect(q + 1, &TokenType::OpenParentheses, Expected::OpenParenAfterWhile)?;
        let (condition, r) = self.parse_expression(q + 2)?;
        self.expect(r, &TokenType::ClosedParentheses, Expected::CloseParenAfterDoWhileCondition)?;
        self.expect(r + 1, &TokenType::Semicolon, Expected::SemicolonAfterDoWhile)?;
        Ok((Stmt::DoWhile { body: Box::new(body), condition }, r + 2))
    }

    fn parse_for_stmt(&self, pos: usize) -> (r: Result<(Stmt, usize), ParseError>)
        requires
            pos < self.tokens.len(),
            spec_for_stmt(self.toks(), pos as nat) is Ok,
        ensures
            res_view(r, pos) == spec_for_stmt(self.toks(), pos as nat),
            r matches Ok((_, q)) ==> pos <= q <= self.toks().len(),
        decreases rem(self.toks(), pos as nat), 2nat, 0nat,
    {
        proof {
            lemma_unfold_for_stmt(self.toks(), pos as nat);
        }
        self.expect(pos + 1, &TokenType::OpenParentheses, Expected::OpenParenAfterFor)?;
        let (init, a) = if let Some(TokenType::Semicolon) = self.peek(pos + 2) {
            (None, pos + 3)
        } else {
            let (s, a) = self.parse_statement(pos + 2)?;
            (Some(Box::new(s)), a)
        };
        let (condition, b) = self.parse_expression(a)?;
        self.expect(b, &TokenType::Semicolon, Expected::SemicolonAfterForCondition)?;
        let (update, d) = if let Some(TokenType::ClosedParentheses) = self.peek(b + 1) {
            (None, b + 1)
        } else {
            let (u, d) = self.parse_expression(b + 1)?;
            (Some(u), d)
        };
        self.expect(d, &TokenType::ClosedParentheses, Expected::CloseParenAfterForUpdate)?;
        let (body, e) = self.parse_block(d + 1)?;
        Ok((Stmt::For { init, condition, update, body: Box::new(body) }, e))
    }

    /// The statements of a switch case, up to the next "case", "default" or "}".
    fn parse_case_body(&self, pos: usize) -> (r: Result<(Vec<Stmt>, usize), ParseError>)
        requires
            pos <= self.tokens.len(),
            spec_case_body(self.toks(), pos as nat, Seq::empty()) is Ok,
        ensures
            stmts_res_view(r, pos) == spec_case_body(self.toks(), pos as nat, Seq::empty()),
            r matches Ok((_, q)) ==> pos <= q <= self.toks().len(),
        decreases rem(self.toks(), pos as nat), 4nat, 0nat,
    {
        let ghost t = self.toks();
        let mut stmts: Vec<Stmt> = Vec::new();
        let mut q = pos;
        proof {
            assert(stmts_view(stmts@) =~= Seq::<SpecStmt>::empty());
        }
        loop
            invariant
                spec_case_body(self.toks(), pos as nat, Seq::empty()) is Ok,
                t == self.toks(),
                pos <= q <= self.tokens.len(),
                shift(spec_case_body(t, q as nat, stmts_view(stmts@)), (q - pos) as nat)
                    == spec_case_body(t, pos as nat, Seq::empty()),
            decreases rem(t, q as nat),
        {
            proof {
                lemma_unfold_case_body(t, q as nat, stmts_view(stmts@));
            }
            match self.peek(q) {
                None | Some(TokenType::Case) | Some(TokenType::DefaultCase) | Some(
                    TokenType::ClosedBracket,
                ) => {
                    return Ok((stmts, q));
                },
                Some(_) => {},
            }
            let (st, q2) = self.parse_statement(q)?;
            proof {
                lemma_statement_progress(t, q as nat);
                crate::ast::lemma_stmts_view_push(stmts@, st);
            }
            stmts.push(st);
            q = q2;
        }
    }

    /// The cases of a switch, up to its "}" or the end of the input.
    fn parse_switch_cases(&self, pos: usize) -> (r: Result<(Vec<SwitchCase>, usize), ParseError>)
        requires
            pos <= self.tokens.len(),
            spec_switch_cases(self.toks(), pos as nat, Seq::empty()) is Ok,
        ensures
            cases_res_view(r, pos) == spec_switch_cases(self.toks(), pos as nat, Seq::empty()),
            r matches Ok((_, q)) ==> pos <= q <= self.toks().len(),
        decreases rem(self.toks(), pos as nat), 2nat, 0nat,
    {
        let ghost t = self.toks();
        let mut cases: Vec<SwitchCase> = Vec::new();
        let mut q = pos;
        proof {
            assert(cases_view(cases@) =~= Seq::<SpecSwitchCase>::empty());
        }
        loop
            invariant
                spec_switch_cases(self.toks(), pos as nat, Seq::empty()) is Ok,
                t == self.toks(),
                pos <= q <= self.tokens.len(),
                shift(spec_switch_cases(t, q as nat, cases_view(cases@)), (q - pos) as nat)
                    == spec_switch_cases(t, pos as nat, Seq::empty()),
            decreases rem(t, q as nat),
        {
            proof {
                lemma_unfold_switch_cases(t, q as nat, cases_view(cases@));
            }
            let case = match self.peek(q) {
                None | Some(TokenType::ClosedBracket) => {
                    return Ok((cases, q));
                },
                Some(TokenType::Case) => {
                    let (v, r) = self.parse_expression(q + 1)?;
                    self.expect(r, &TokenType::Colon, Expected::ColonAfterCaseValue)?;
                    let (body, e) = self.parse_case_body(r + 1)?;
                    q = e;
                    SwitchCase { value: Some(v), body }
                },
                Some(TokenType::DefaultCase) => {
                    self.expect(q + 1, &TokenType::Colon, Expected::ColonAfterDefault)?;
                    let (body, e) = self.parse_case_body(q + 2)?;
                    q = e;
                    SwitchCase { value: None, body }
                },
                Some(_) => {
                    return Err(ParseError { expected: Expected::CaseDefaultOrCloseBrace, position: q });
                },
            };
            proof {
                crate::ast::lemma_cases_view_push(cases@, case);
            }
            cases.push(case);
        }
    }

    fn parse_switch_stmt(&self, pos: usize) -> (r: Result<(Stmt, usize), ParseError>)
        requires
            pos < self.tokens.len(),
            spec_switch_stmt(self.toks(), pos as nat) is Ok,
        ensures
            res_view(r, pos) == spec_switch_stmt(self.toks(), pos as nat),
            r matches Ok((_, q)) ==> pos <= q <= self.toks().len(),
        decreases rem(self.toks(), pos as nat), 2nat, 0nat,
    {
        proof {
            lemma_unfold_switch_stmt(self.toks(), pos as nat);
        }
        self.expect(pos + 1, &TokenType::OpenParentheses, Expected::OpenParenAfterSwitch)?;
        let (cond, q) = self.parse_expression(pos + 2)?;
        self.expect(q, &TokenType::ClosedParentheses, Expected::CloseParenAfterSwitchCondition)?;
        self.expect(q + 1, &TokenType::OpenBracket, Expected::OpenBraceForSwitchBody)?;
        let (cases, r) = self.parse_switch_cases(q + 2)?;
        self.expect(r, &TokenType::ClosedBracket, Expected::CloseBraceForSwitchBody)?;
        Ok((Stmt::Switch { cond, cases }, r + 1))
    }
}

/// Whether two tokens are the same; only used on tokens without data.
fn token_eq(a: &TokenType, b: &TokenType) -> (r: bool)
    ensures
        r == (a@ == b@),
{
    match (a, b) {
        (TokenType::Int, TokenType::Int) => true,
        (TokenType::Char, TokenType::Char) => true,
        (TokenType::OpenParentheses, TokenType::OpenParentheses) => true,
        (TokenType::ClosedParentheses, TokenType::ClosedParentheses) => true,
        (TokenType::Semicolon, TokenType::Semicolon) => true,
        (TokenType::Comma, TokenType::Comma) => true,
        (TokenType::Colon, TokenType::Colon) => true,
        (TokenType::Return, TokenType::Return) => true,
        (TokenType::If, TokenType::If) => true,
        (TokenType::Else, TokenType::Else) => true,
        (TokenType::While, TokenType::While) => true,
        (TokenType::Do, TokenType::Do) => true,
        (TokenType::For, TokenType::For) => true,
        (TokenType::Switch, TokenType::Switch) => true,
        (TokenType::Case, TokenType::Case) => true,
        (TokenType::DefaultCase, TokenType::DefaultCase) => true,
        (TokenType::Break, TokenType::Break) => true,
        (TokenType::Continue, TokenType::Continue) => true,
        (TokenType::OpenBracket, TokenType::OpenBracket) => true,
        (TokenType::ClosedBracket, TokenType::ClosedBracket) => true,
        (TokenType::Include, TokenType::Include) => true,
        (TokenType::Define, TokenType::Define) => true,
        (TokenType::Operator(x), TokenType::Operator(y)) => *x == *y,
        (TokenType::Identifier(x), TokenType::Identifier(y)) => *x == *y,
        (TokenType::IntegerLiteral(x), TokenType::IntegerLiteral(y)) => *x == *y,
        (TokenType::StringLiteral(x), TokenType::StringLiteral(y)) => *x == *y,
        (TokenType::CharLiteral(x), TokenType::CharLiteral(y)) => *x == *y,
        _ => false,
    }
}

impl Parser {
    fn parse_param(&self, pos: usize) -> (r: Result<(Param, usize), ParseError>)
        requires
            spec_param(self.toks(), pos as nat) is Ok,
        ensures
            res_view(r, pos) == spec_param(self.toks(), pos as nat),
            r matches Ok((_, q)) ==> pos <= q <= self.toks().len(),
    {
        let param_type = self.parse_type(pos)?;
        match self.peek(pos + 1) {
            Some(TokenType::Identifier(name)) => Ok((Param { param_type, name: name.clone() }, pos + 2)),
            _ => Err(ParseError { expected: Expected::ParameterName, position: pos + 1 }),
        }
    }

    fn parse_params(&self, pos: usize) -> (r: Result<(Vec<Param>, usize), ParseError>)
        requires
            spec_params(self.toks(), pos as nat) is Ok,
        ensures
            params_res_view(r, pos) == spec_params(self.toks(), pos as nat),
            r matches Ok((_, q)) ==> pos <= q <= self.toks().len(),
    {
        let ghost t = self.toks();
        let mut params: Vec<Param> = Vec::new();
        if let Some(TokenType::ClosedParentheses) = self.peek(pos) {
            proof {
                assert(params_view(params@) =~= Seq::<SpecParam>::empty());
            }
            return Ok((params, pos));
        }
        let (first, mut q) = self.parse_param(pos)?;
        params.push(first);
        proof {
            assert(params_view(params@) =~= seq![first@]);
        }
        loop
            invariant
                spec_params(self.toks(), pos as nat) is Ok,
                t == self.toks(),
                pos <= q <= self.tokens.len(),
                shift(spec_params_rest(t, q as nat, params_view(params@)), (q - pos) as nat)
                    == spec_params(t, pos as nat),
            decreases rem(t, q as nat),
        {
            if let Some(TokenType::Comma) = self.peek(q) {
                let (x, q2) = self.parse_param(q + 1)?;
                proof {
                    assert(params_view(params@.push(x)) =~= params_view(params@).push(x@));
                }
                params.push(x);
                q = q2;
            } else {
                return Ok((params, q));
            }
        }
    }

    /// The statements of a function body, up to its "}" or the end of the input.
    fn parse_function_body(&self, pos: usize) -> (r: Result<(Vec<Stmt>, usize), ParseError>)
        requires
            pos <= self.tokens.len(),
            spec_function_body(self.toks(), pos as nat, Seq::empty()) is Ok,
        ensures
            stmts_res_view(r, pos) == spec_function_body(self.toks(), pos as nat, Seq::empty()),
            r matches Ok((_, q)) ==> pos <= q <= self.toks().len(),
    {
        let ghost t = self.toks();
        let mut body: Vec<Stmt> = Vec::new();
        let mut q = pos;
        proof {
            assert(stmts_view(body@) =~= Seq::<SpecStmt>::empty());
        }
        loop
            invariant
                spec_function_body(self.toks(), pos as nat, Seq::empty()) is Ok,
                t == self.toks(),
                pos <= q <= self.tokens.len(),
                shift(spec_function_body(t, q as nat, stmts_view(body@)), (q - pos) as nat)
                    == spec_function_body(t, pos as nat, Seq::empty()),
            decreases rem(t, q as nat),
        {
            match self.peek(q) {
                None | Some(TokenType::ClosedBracket) => {
                    return Ok((body, q));
                },
                Some(_) => {},
            }
            let (st, q2) = self.parse_statement(q)?;
            proof {
                lemma_statement_progress(t, q as nat);
                crate::ast::lemma_stmts_view_push(body@, st);
            }
            body.push(st);
            q = q2;
        }
    }

    fn parse_function(&self, pos: usize) -> (r: Result<(Function, usize), ParseError>)
        requires
            spec_function(self.toks(), pos as nat) is Ok,
        ensures
            res_view(r, pos) == spec_function(self.toks(), pos as nat),
            r matches Ok((_, q)) ==> pos < q <= self.toks().len(),
    {
        let ret_type = self.parse_type(pos)?;
        let name = match self.peek(pos + 1) {
            Some(TokenType::Identifier(name)) => name.clone(),
            _ => {
                return Err(ParseError { expected: Expected::FunctionName, position: pos + 1 });
            },
        };
        self.expect(pos + 2, &TokenType::OpenParentheses, Expected::OpenParenAfterFunctionName)?;
        let (params, q) = self.parse_params(pos + 3)?;
        self.expect(q, &TokenType::ClosedParentheses, Expected::CloseParenAfterParams)?;
        self.expect(q + 1, &TokenType::OpenBracket, Expected::OpenBraceForFunctionBody)?;
        let (body, r) = self.parse_function_body(q + 2)?;
        self.expect(r, &TokenType::ClosedBracket, Expected::CloseBraceForFunctionBody)?;
        Ok((Function { ret_type, name, params, body }, r + 1))
    }

    fn parse_item(&self, pos: usize) -> (r: Result<(Item, usize), ParseError>)
        requires
            spec_function(self.toks(), pos as nat) is Ok,
        ensures
            match spec_function(self.toks(), pos as nat) {
                Ok((f, n)) => r matches Ok((item, q)) && item@ == SpecItem::Function(f) && q == pos + n,
                Err(e) => r == Err::<(Item, usize), ParseError>(e),
            },
            r matches Ok((_, q)) ==> pos < q <= self.toks().len(),
    {
        let (f, q) = self.parse_function(pos)?;
        Ok((Item::Function(f), q))
    }

    /// Parses the tokens from the current position to the end as a program:
    /// a sequence of function definitions, after which the parser stands at
    /// the end of the tokens. The tokens must form a program: where they do
    /// not, the call is outside this contract, and it returns the syntax
    /// error that says what was expected and where.
    pub fn parse_program(&mut self) -> (r: Result<Program, ParseError>)
        requires
            old(self).pos() <= old(self).toks().len(),
            spec_parse_program(old(self).toks(), old(self).pos()) is Ok,
        ensures
            final(self).toks() == old(self).toks(),
            match spec_parse_program(old(self).toks(), old(self).pos()) {
                Ok(prog) => r matches Ok(p) && p@ == prog && final(self).pos() == final(self).toks().len(),
                Err(e) => r == Err::<Program, ParseError>(e),
            },
            r matches Ok(p) ==> forall|i: int| 0 <= i < p@.items.len() ==> #[trigger] p@.items[i] is Function,
    {
        proof {
            lemma_items_are_functions(old(self).toks(), old(self).pos(), Seq::empty());
        }
        let ghost t = self.toks();
        let ghost p0 = self.position as nat;
        let mut items: Vec<Item> = Vec::new();
        proof {
            assert(items@.map_values(|i: Item| i@) =~= Seq::<SpecItem>::empty());
        }
        loop
            invariant
                spec_parse_program(old(self).toks(), old(self).pos()) is Ok,
                t == self.toks(),
                t == old(self).toks(),
                p0 == old(self).pos(),
                p0 <= t.len(),
                self.position <= t.len(),
                spec_items(t, p0, Seq::empty()) matches Ok(all) ==> forall|i: int|
                    0 <= i < all.len() ==> #[trigger] all[i] is Function,
                spec_items(t, self.position as nat, items@.map_values(|i: Item| i@)) == spec_items(
                    t,
                    p0,
                    Seq::empty(),
                ),
            decreases rem(t, self.position as nat),
        {
            if self.peek(self.position).is_none() {
                return Ok(Program { items });
            }
            let (item, q) = match self.parse_item(self.position) {
                Ok(x) => x,
                Err(e) => {
                    return Err(e);
                },
            };
            proof {
                assert(items@.push(item).map_values(|i: Item| i@) =~= items@.map_values(|i: Item| i@).push(item@));
            }
            items.push(item);
            self.position = q;
        }
    }
}

/// What a diagnostic says was expected.
fn expected_phrase_text(e: Expected) -> (r: &'static str)
    ensures
        r@ == expected_phrase(e),
{
    match e {
        Expected::Expression => "expected an expression",
        Expected::CloseParen => "expected ')'",
        Expected::CloseParenAfterCallArgs => "expected ')' after function call arguments",
        Expected::SemicolonAfterBreak => "expected ';' after 'break'",
        Expected::SemicolonAfterContinue => "expected ';' after 'continue'",
        Expected::Type => "expected a type",
        Expected::Identifier => "expected an identifier",
        Expected::SemicolonAfterVarDeclaration => "expected ';' after variable declaration",
        Expected::SemicolonAfterReturn => "expected ';' after return statement",
        Expected::CloseBraceForBlock => "expected '}' to close block",
        Expected::OpenParenAfterIf => "expected '(' after 'if'",
        Expected::CloseParenAfterIfCondition => "expected ')' after if condition",
        Expected::OpenParenAfterWhile => "expected '(' after 'while'",
        Expected::CloseParenAfterWhileCondition => "expected ')' after while condition",
        Expected::WhileAfterDoBody => "expected 'while' after 'do' body",
        Expected::CloseParenAfterDoWhileCondition => "expected ')' after do-while condition",
        Expected::SemicolonAfterDoWhile => "expected ';' after do-while statement",
        Expected::OpenParenAfterFor => "expected '(' after 'for'",
        Expected::SemicolonAfterForCondition => "expected ';' after for condition",
        Expected::CloseParenAfterForUpdate => "expected ')' after for update",
        Expected::OpenParenAfterSwitch => "expected '(' after 'switch'",
        Expected::CloseParenAfterSwitchCondition => "expected ')' after switch condition",
        Expected::OpenBraceForSwitchBody => "expected '{' to start switch body",
        Expected::ColonAfterCaseValue => "expected ':' after case value",
        Expected::ColonAfterDefault => "expected ':' after 'default'",
        Expected::CaseDefaultOrCloseBrace => "expected 'case', 'default', or '}' in switch body",
        Expected::CloseBraceForSwitchBody => "expected '}' to close switch body",
        Expected::SemicolonAfterExpression => "expected ';' after expression",
        Expected::FunctionName => "expected a function name",
        Expected::OpenParenAfterFunctionName => "expected '(' after function name",
        Expected::CloseParenAfterParams => "expected ')' after function parameters",
        Expected::OpenBraceForFunctionBody => "expected '{' to start function body",
        Expected::CloseBraceForFunctionBody => "expected '}' to close function body",
        Expected::ParameterName => "expected a parameter name",
    }
}

impl ParseError {
    /// The diagnostic for this error, for the tokens in which it arose.
    pub fn message(&self, tokens: &Vec<TokenType>) -> (r: String)
        ensures
            r@ == parse_error_message(*self, tokens@.map_values(|t: TokenType| t@)),
    {
        let ghost t = tokens@.map_values(|t: TokenType| t@);
        let found: Option<&TokenType> = if self.position < tokens.len() {
            Some(&tokens[self.position])
        } else {
            None
        };
        assert(match found {
            Some(x) => tok(t, self.position as nat) == Some(x@),
            None => tok(t, self.position as nat) is None,
        });
        match self.expected {
            Expected::Expression => match found {
                Some(x) => {
                    let mut m = String::from_str("Syntax error: unexpected token ");
                    m.append(token_text_of(x).as_str());
                    m.append(", expected an expression.\n");
                    m
                },
                None => String::from_str("Syntax error: unexpected end of input, expected an expression.\n"),
            },
            Expected::CloseParen => {
                let mut m = String::from_str("Syntax error: expected ')' but found ");
                m.append(found_text(found).as_str());
                m.append(".\n");
                m
            },
            Expected::CaseDefaultOrCloseBrace => {
                let mut m = String::from_str("Syntax error: ");
                m.append(expected_phrase_text(self.expected));
                m.append(", found ");
                match found {
                    Some(x) => m.append(token_text_of(x).as_str()),
                    None => m.append("None"),
                }
                m.append(".\n");
                m
            },
            _ => {
                let mut m = String::from_str("Syntax error: ");
                m.append(expected_phrase_text(self.expected));
                m.append(", found ");
                m.append(found_text(found).as_str());
                m.append(".\n");
                m
            },
        }
    }
}

/// `Some(token)` or `None`, as diagnostics write what was found.
fn found_text(found: Option<&TokenType>) -> (r: String)
    ensures
        r@ == match found {
            Some(x) => "Some("@ + token_text(x@) + ")"@,
            None => "None"@,
        },
{
    match found {
        Some(x) => {
            let mut m = String::from_str("Some(");
            m.append(token_text_of(x).as_str());
            m.append(")");
            m
        },
        None => String::from_str("None"),
    }
}

} // verus!
