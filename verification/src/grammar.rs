use vstd::prelude::*;

use crate::ast::{
    Expr, Function, SpecExpr, SpecFunction, SpecItem, SpecParam, SpecProgram, SpecStmt, SpecSwitchCase,
    Type,
};
use crate::lexer::SpecToken;
use crate::text::token_text;

verus! {



/// What the parser expected where it rejected the token sequence.
#[derive(Clone, Copy, Debug, PartialEq, Eq, Structural)]
pub enum Expected {
    Expression,
    CloseParen,
    CloseParenAfterCallArgs,
    SemicolonAfterBreak,
    SemicolonAfterContinue,
    Type,
    Identifier,
    SemicolonAfterVarDeclaration,
    SemicolonAfterReturn,
    CloseBraceForBlock,
    OpenParenAfterIf,
    CloseParenAfterIfCondition,
    OpenParenAfterWhile,
    CloseParenAfterWhileCondition,
    WhileAfterDoBody,
    CloseParenAfterDoWhileCondition,
    SemicolonAfterDoWhile,
    OpenParenAfterFor,
    SemicolonAfterForCondition,
    CloseParenAfterForUpdate,
    OpenParenAfterSwitch,
    CloseParenAfterSwitchCondition,
    OpenBraceForSwitchBody,
    ColonAfterCaseValue,
    ColonAfterDefault,
    CaseDefaultOrCloseBrace,
    CloseBraceForSwitchBody,
    SemicolonAfterExpression,
    FunctionName,
    OpenParenAfterFunctionName,
    CloseParenAfterParams,
    OpenBraceForFunctionBody,
    CloseBraceForFunctionBody,
    ParameterName,
}

/// A syntax error: what was expected, and the index of the token found there
/// (the number of tokens where the input ended first).
#[derive(Clone, Copy, Debug, PartialEq, Eq, Structural)]
pub struct ParseError {
    pub expected: Expected,
    pub position: usize,
}

/// What a diagnostic says was expected.
pub open spec fn expected_phrase(e: Expected) -> Seq<char> {
    match e {
        Expected::Expression => "expected an expression"@,
        Expected::CloseParen => "expected ')'"@,
        Expected::CloseParenAfterCallArgs => "expected ')' after function call arguments"@,
        Expected::SemicolonAfterBreak => "expected ';' after 'break'"@,
        Expected::SemicolonAfterContinue => "expected ';' after 'continue'"@,
        Expected::Type => "expected a type"@,
        Expected::Identifier => "expected an identifier"@,
        Expected::SemicolonAfterVarDeclaration => "expected ';' after variable declaration"@,
        Expected::SemicolonAfterReturn => "expected ';' after return statement"@,
        Expected::CloseBraceForBlock => "expected '}' to close block"@,
        Expected::OpenParenAfterIf => "expected '(' after 'if'"@,
        Expected::CloseParenAfterIfCondition => "expected ')' after if condition"@,
        Expected::OpenParenAfterWhile => "expected '(' after 'while'"@,
        Expected::CloseParenAfterWhileCondition => "expected ')' after while condition"@,
        Expected::WhileAfterDoBody => "expected 'while' after 'do' body"@,
        Expected::CloseParenAfterDoWhileCondition => "expected ')' after do-while condition"@,
        Expected::SemicolonAfterDoWhile => "expected ';' after do-while statement"@,
        Expected::OpenParenAfterFor => "expected '(' after 'for'"@,
        Expected::SemicolonAfterForCondition => "expected ';' after for condition"@,
        Expected::CloseParenAfterForUpdate => "expected ')' after for update"@,
        Expected::OpenParenAfterSwitch => "expected '(' after 'switch'"@,
        Expected::CloseParenAfterSwitchCondition => "expected ')' after switch condition"@,
        Expected::OpenBraceForSwitchBody => "expected '{' to start switch body"@,
        Expected::ColonAfterCaseValue => "expected ':' after case value"@,
        Expected::ColonAfterDefault => "expected ':' after 'default'"@,
        Expected::CaseDefaultOrCloseBrace => "expected 'case', 'default', or '}' in switch body"@,
        Expected::CloseBraceForSwitchBody => "expected '}' to close switch body"@,
        Expected::SemicolonAfterExpression => "expected ';' after expression"@,
        Expected::FunctionName => "expected a function name"@,
        Expected::OpenParenAfterFunctionName => "expected '(' after function name"@,
        Expected::CloseParenAfterParams => "expected ')' after function parameters"@,
        Expected::OpenBraceForFunctionBody => "expected '{' to start function body"@,
        Expected::CloseBraceForFunctionBody => "expected '}' to close function body"@,
        Expected::ParameterName => "expected a parameter name"@,
    }
}

/// The token found where the error arose, or the end of input.
pub open spec fn found_token_text(t: Seq<SpecToken>, p: nat) -> Seq<char> {
    match tok(t, p) {
        Some(x) => "Some("@ + token_text(x) + ")"@,
        None => "None"@,
    }
}

/// The diagnostic for a syntax error in the token sequence `t`.
pub open spec fn parse_error_message(e: ParseError, t: Seq<SpecToken>) -> Seq<char> {
    let p = e.position as nat;
    match e.expected {
        Expected::Expression => match tok(t, p) {
            Some(x) => "Syntax error: unexpected token "@ + token_text(x) + ", expected an expression.\n"@,
            None => "Syntax error: unexpected end of input, expected an expression.\n"@,
        },
        Expected::CloseParen => "Syntax error: expected ')' but found "@ + found_token_text(t, p) + ".\n"@,
        Expected::CaseDefaultOrCloseBrace => "Syntax error: "@ + expected_phrase(e.expected) + ", found "@ + match tok(t, p) {
            Some(x) => token_text(x),
            None => "None"@,
        } + ".\n"@,
        _ => "Syntax error: "@ + expected_phrase(e.expected) + ", found "@ + found_token_text(t, p) + ".\n"@,
    }
}

/// Result of a parsing rule: the tree it read and how many tokens it consumed.
pub type PRes<T> = Result<(T, nat), ParseError>;

pub open spec fn perr<T>(expected: Expected, p: nat) -> PRes<T> {
    Err(ParseError { expected, position: p as usize })
}

/// The token at `p`, if there is one.
pub open spec fn tok(t: Seq<SpecToken>, p: nat) -> Option<SpecToken> {
    if p < t.len() {
        Some(t[p as int])
    } else {
        None
    }
}

/// The number of tokens left from `p` on.
pub open spec fn rem(t: Seq<SpecToken>, p: nat) -> int {
    if p <= t.len() {
        t.len() - p
    } else {
        0
    }
}

/// The operators of each binary precedence level, from the tightest (0) to the loosest (4).
pub open spec fn level_op(level: nat, op: Seq<char>) -> bool {
    if level == 0 {
        op == seq!['*'] || op == seq!['/'] || op == seq!['%']
    } else if level == 1 {
        op == seq!['+'] || op == seq!['-']
    } else if level == 2 {
        op == seq!['<'] || op == seq!['<', '='] || op == seq!['>'] || op == seq!['>', '=']
    } else if level == 3 {
        op == seq!['=', '='] || op == seq!['!', '=']
    } else {
        op == seq!['&', '&']
    }
}

pub open spec fn assign_op(op: Seq<char>) -> bool {
    op == seq!['='] || op == seq!['+', '='] || op == seq!['-', '=']
}

pub open spec fn prefix_op(op: Seq<char>) -> bool {
    op == seq!['-'] || op == seq!['!'] || op == seq!['+', '+'] || op == seq!['-', '-']
}

pub open spec fn postfix_op(op: Seq<char>) -> bool {
    op == seq!['+', '+'] || op == seq!['-', '-']
}

// ---------------------------------------------------------------------------
// Expressions. Each rule reads from position `p` of the token sequence `t`.

/// expression := logical_and [ ("=" | "+=" | "-=") expression ]
#[verifier::opaque]
pub closed spec fn spec_expression(t: Seq<SpecToken>, p: nat) -> PRes<SpecExpr>
    decreases rem(t, p), 20nat, 1nat,
{
    expression_rule(t, p)
}

pub proof fn lemma_unfold_expression(t: Seq<SpecToken>, p: nat)
    ensures
        spec_expression(t, p) == expression_rule(t, p),
{
    reveal_with_fuel(spec_expression, 2);
}

/// The grammar rule for `spec_expression`.
pub open spec fn expression_rule(t: Seq<SpecToken>, p: nat) -> PRes<SpecExpr>
    decreases rem(t, p), 20nat, 0nat,
{
    match spec_binary(t, p, 4) {
        Err(e) => Err(e),
        Ok((lhs, n)) => {
            let q = p + n;
            match tok(t, q) {
                Some(SpecToken::Operator(op)) => {
                    if assign_op(op) {
                        match spec_expression(t, (q + 1) as nat) {
                            Err(e) => Err(e),
                            Ok((rhs, m)) => Ok((
                                SpecExpr::Assignment { target: Box::new(lhs), op, value: Box::new(rhs) },
                                n + 1 + m,
                           )),
                        }
                    } else {
                        Ok((lhs, n))
                    }
                },
                _ => Ok((lhs, n)),
            }
        },
    }
}

/// The operand rule of binary level `level`.
#[verifier::opaque]
pub closed spec fn spec_operand(t: Seq<SpecToken>, p: nat, level: nat) -> PRes<SpecExpr>
    decreases rem(t, p), (6 + 3 * level) as nat, 1nat,
{
    operand_rule(t, p, level)
}

pub proof fn lemma_unfold_operand(t: Seq<SpecToken>, p: nat, level: nat)
    ensures
        spec_operand(t, p, level) == operand_rule(t, p, level),
{
    reveal_with_fuel(spec_operand, 2);
}

/// The grammar rule for `spec_operand`.
pub open spec fn operand_rule(t: Seq<SpecToken>, p: nat, level: nat) -> PRes<SpecExpr>
    decreases rem(t, p), (6 + 3 * level) as nat, 0nat,
{
    if level == 0 {
        spec_unary(t, p)
    } else {
        spec_binary(t, p, (level - 1) as nat)
    }
}

/// binary(level) := operand { op(level) operand }, grouped to the left.
pub closed spec fn spec_binary(t: Seq<SpecToken>, p: nat, level: nat) -> PRes<SpecExpr>
    decreases rem(t, p), (7 + 3 * level) as nat, 1nat,
{
    binary_rule(t, p, level)
}

pub proof fn lemma_unfold_binary(t: Seq<SpecToken>, p: nat, level: nat)
    ensures
        spec_binary(t, p, level) == binary_rule(t, p, level),
{
    reveal_with_fuel(spec_binary, 2);
}

/// The grammar rule for `spec_binary`.
pub open spec fn binary_rule(t: Seq<SpecToken>, p: nat, level: nat) -> PRes<SpecExpr>
    decreases rem(t, p), (7 + 3 * level) as nat, 0nat,
{
    match spec_operand(t, p, level) {
        Err(e) => Err(e),
        Ok((lhs, n)) => match spec_binary_rest(t, p + n, level, lhs) {
            Err(e) => Err(e),
            Ok((e, m)) => Ok((e, n + m)),
        },
    }
}

/// The rest of a binary level after `lhs` was read, up to position `q`.
#[verifier::opaque]
pub closed spec fn spec_binary_rest(t: Seq<SpecToken>, q: nat, level: nat, lhs: SpecExpr) -> PRes<SpecExpr>
    decreases rem(t, q), (6 + 3 * level) as nat, 1nat,
{
    binary_rest_rule(t, q, level, lhs)
}

pub proof fn lemma_unfold_binary_rest(t: Seq<SpecToken>, q: nat, level: nat, lhs: SpecExpr)
    ensures
        spec_binary_rest(t, q, level, lhs) == binary_rest_rule(t, q, level, lhs),
{
    reveal_with_fuel(spec_binary_rest, 2);
}

/// The grammar rule for `spec_binary_rest`.
pub open spec fn binary_rest_rule(t: Seq<SpecToken>, q: nat, level: nat, lhs: SpecExpr) -> PRes<SpecExpr>
    decreases rem(t, q), (6 + 3 * level) as nat, 0nat,
{
    match tok(t, q) {
        Some(SpecToken::Operator(op)) => {
            if level_op(level, op) {
                match spec_operand(t, q + 1, level) {
                    Err(e) => Err(e),
                    Ok((rhs, m)) => {
                        let e = SpecExpr::BinaryOp { left: Box::new(lhs), op, right: Box::new(rhs) };
                        match spec_binary_rest(t, q + 1 + m, level, e) {
                            Err(e) => Err(e),
                            Ok((r, k)) => Ok((r, 1 + m + k)),
                        }
                    },
                }
            } else {
                Ok((lhs, 0))
            }
        },
        _ => Ok((lhs, 0)),
    }
}

/// unary := ("-" | "!" | "++" | "--") unary | postfix
#[verifier::opaque]
pub closed spec fn spec_unary(t: Seq<SpecToken>, p: nat) -> PRes<SpecExpr>
    decreases rem(t, p), 5nat, 1nat,
{
    unary_rule(t, p)
}

pub proof fn lemma_unfold_unary(t: Seq<SpecToken>, p: nat)
    ensures
        spec_unary(t, p) == unary_rule(t, p),
{
    reveal_with_fuel(spec_unary, 2);
}

/// The grammar rule for `spec_unary`.
pub open spec fn unary_rule(t: Seq<SpecToken>, p: nat) -> PRes<SpecExpr>
    decreases rem(t, p), 5nat, 0nat,
{
    match tok(t, p) {
        Some(SpecToken::Operator(op)) => {
            if prefix_op(op) {
                match spec_unary(t, p + 1) {
                    Err(e) => Err(e),
                    Ok((e, n)) => Ok((SpecExpr::UnaryOp { op, expr: Box::new(e) }, n + 1)),
                }
            } else {
                spec_postfix(t, p)
            }
        },
        _ => spec_postfix(t, p),
    }
}

/// postfix := primary { "++" | "--" }
#[verifier::opaque]
pub closed spec fn spec_postfix(t: Seq<SpecToken>, p: nat) -> PRes<SpecExpr>
    decreases rem(t, p), 4nat, 1nat,
{
    postfix_rule(t, p)
}

pub proof fn lemma_unfold_postfix(t: Seq<SpecToken>, p: nat)
    ensures
        spec_postfix(t, p) == postfix_rule(t, p),
{
    reveal_with_fuel(spec_postfix, 2);
}

/// The grammar rule for `spec_postfix`.
pub open spec fn postfix_rule(t: Seq<SpecToken>, p: nat) -> PRes<SpecExpr>
    decreases rem(t, p), 4nat, 0nat,
{
    match spec_primary(t, p) {
        Err(e) => Err(e),
        Ok((e, n)) => match spec_postfix_rest(t, p + n, e) {
            Err(e) => Err(e),
            Ok((r, m)) => Ok((r, n + m)),
        },
    }
}

#[verifier::opaque]
pub closed spec fn spec_postfix_rest(t: Seq<SpecToken>, q: nat, e: SpecExpr) -> PRes<SpecExpr>
    decreases rem(t, q), 3nat, 1nat,
{
    postfix_rest_rule(t, q, e)
}

pub proof fn lemma_unfold_postfix_rest(t: Seq<SpecToken>, q: nat, e: SpecExpr)
    ensures
        spec_postfix_rest(t, q, e) == postfix_rest_rule(t, q, e),
{
    reveal_with_fuel(spec_postfix_rest, 2);
}

/// The grammar rule for `spec_postfix_rest`.
pub open spec fn postfix_rest_rule(t: Seq<SpecToken>, q: nat, e: SpecExpr) -> PRes<SpecExpr>
    decreases rem(t, q), 3nat, 0nat,
{
    match tok(t, q) {
        Some(SpecToken::Operator(op)) => {
            if postfix_op(op) {
                match spec_postfix_rest(t, q + 1, SpecExpr::UnaryOp { op, expr: Box::new(e) }) {
                    Err(e) => Err(e),
                    Ok((r, m)) => Ok((r, m + 1)),
                }
            } else {
                Ok((e, 0))
            }
        },
        _ => Ok((e, 0)),
    }
}

/// primary := literal | identifier [ "(" call_args ")" ] | "(" expression ")"
#[verifier::opaque]
pub closed spec fn spec_primary(t: Seq<SpecToken>, p: nat) -> PRes<SpecExpr>
    decreases rem(t, p), 2nat, 1nat,
{
    primary_rule(t, p)
}

pub proof fn lemma_unfold_primary(t: Seq<SpecToken>, p: nat)
    ensures
        spec_primary(t, p) == primary_rule(t, p),
{
    reveal_with_fuel(spec_primary, 2);
}

/// The grammar rule for `spec_primary`.
pub open spec fn primary_rule(t: Seq<SpecToken>, p: nat) -> PRes<SpecExpr>
    decreases rem(t, p), 2nat, 0nat,
{
    match tok(t, p) {
        Some(SpecToken::IntegerLiteral(v)) => Ok((SpecExpr::IntegerLit(v), 1)),
        Some(SpecToken::CharLiteral(c)) => Ok((SpecExpr::CharLit(c), 1)),
        Some(SpecToken::StringLiteral(s)) => Ok((SpecExpr::StringLit(s), 1)),
        Some(SpecToken::Identifier(name)) => spec_identifier_or_call(t, p, name),
        Some(SpecToken::OpenParentheses) => match spec_expression(t, p + 1) {
            Err(e) => Err(e),
            Ok((e, n)) => {
                if tok(t, p + 1 + n) == Some(SpecToken::ClosedParentheses) {
                    Ok((e, n + 2))
                } else {
                    perr(Expected::CloseParen, p + 1 + n)
                }
            },
        },
        _ => perr(Expected::Expression, p),
    }
}

/// An identifier at `p`, called when "(" follows it.
#[verifier::opaque]
pub closed spec fn spec_identifier_or_call(t: Seq<SpecToken>, p: nat, name: Seq<char>) -> PRes<SpecExpr>
    decreases rem(t, p), 1nat, 1nat,
{
    identifier_or_call_rule(t, p, name)
}

pub proof fn lemma_unfold_identifier_or_call(t: Seq<SpecToken>, p: nat, name: Seq<char>)
    ensures
        spec_identifier_or_call(t, p, name) == identifier_or_call_rule(t, p, name),
{
    reveal_with_fuel(spec_identifier_or_call, 2);
}

/// The grammar rule for `spec_identifier_or_call`.
pub open spec fn identifier_or_call_rule(t: Seq<SpecToken>, p: nat, name: Seq<char>) -> PRes<SpecExpr>
    decreases rem(t, p), 1nat, 0nat,
{
    if tok(t, p + 1) == Some(SpecToken::OpenParentheses) {
        match spec_call_args(t, p + 2) {
            Err(e) => Err(e),
            Ok((args, n)) => {
                if tok(t, p + 2 + n) == Some(SpecToken::ClosedParentheses) {
                    Ok((SpecExpr::FunCall { callee: name, args }, n + 3))
                } else {
                    perr(Expected::CloseParenAfterCallArgs, p + 2 + n)
                }
            },
        }
    } else {
        Ok((SpecExpr::Identifier(name), 1))
    }
}

/// call_args := [ expression { "," expression } ]   (empty when ")" follows)
#[verifier::opaque]
pub closed spec fn spec_call_args(t: Seq<SpecToken>, p: nat) -> PRes<Seq<SpecExpr>>
    decreases rem(t, p), 21nat, 1nat,
{
    call_args_rule(t, p)
}

pub proof fn lemma_unfold_call_args(t: Seq<SpecToken>, p: nat)
    ensures
        spec_call_args(t, p) == call_args_rule(t, p),
{
    reveal_with_fuel(spec_call_args, 2);
}

/// The grammar rule for `spec_call_args`.
pub open spec fn call_args_rule(t: Seq<SpecToken>, p: nat) -> PRes<Seq<SpecExpr>>
    decreases rem(t, p), 21nat, 0nat,
{
    if tok(t, p) == Some(SpecToken::ClosedParentheses) {
        Ok((Seq::empty(), 0))
    } else {
        match spec_expression(t, p) {
            Err(e) => Err(e),
            Ok((e, n)) => match spec_call_args_rest(t, p + n, seq![e]) {
                Err(e) => Err(e),
                Ok((args, m)) => Ok((args, n + m)),
            },
        }
    }
}

#[verifier::opaque]
pub closed spec fn spec_call_args_rest(t: Seq<SpecToken>, q: nat, acc: Seq<SpecExpr>) -> PRes<Seq<SpecExpr>>
    decreases rem(t, q), 20nat, 1nat,
{
    call_args_rest_rule(t, q, acc)
}

pub proof fn lemma_unfold_call_args_rest(t: Seq<SpecToken>, q: nat, acc: Seq<SpecExpr>)
    ensures
        spec_call_args_rest(t, q, acc) == call_args_rest_rule(t, q, acc),
{
    reveal_with_fuel(spec_call_args_rest, 2);
}

/// The grammar rule for `spec_call_args_rest`.
pub open spec fn call_args_rest_rule(t: Seq<SpecToken>, q: nat, acc: Seq<SpecExpr>) -> PRes<Seq<SpecExpr>>
    decreases rem(t, q), 20nat, 0nat,
{
    if tok(t, q) == Some(SpecToken::Comma) {
        match spec_expression(t, q + 1) {
            Err(e) => Err(e),
            Ok((e, m)) => match spec_call_args_rest(t, q + 1 + m, acc.push(e)) {
                Err(e) => Err(e),
                Ok((args, k)) => Ok((args, 1 + m + k)),
            },
        }
    } else {
        Ok((acc, 0))
    }
}

// ---------------------------------------------------------------------------
// Statements.

/// type := "int" | "char"
pub open spec fn spec_type(t: Seq<SpecToken>, p: nat) -> Result<Type, ParseError> {
    match tok(t, p) {
        Some(SpecToken::Int) => Ok(Type::Int),
        Some(SpecToken::Char) => Ok(Type::Char),
        _ => Err(ParseError { expected: Expected::Type, position: p as usize }),
    }
}

/// statement := block_body | var_declaration | return | if | while | do_while | for
///            | switch | break | continue | expression ";"
pub closed spec fn spec_statement(t: Seq<SpecToken>, p: nat) -> PRes<SpecStmt>
    decreases rem(t, p), 3nat, 1nat,
{
    statement_rule(t, p)
}

pub proof fn lemma_unfold_statement(t: Seq<SpecToken>, p: nat)
    ensures
        spec_statement(t, p) == statement_rule(t, p),
{
    reveal_with_fuel(spec_statement, 2);
}

/// The grammar rule for `spec_statement`.
pub open spec fn statement_rule(t: Seq<SpecToken>, p: nat) -> PRes<SpecStmt>
    decreases rem(t, p), 3nat, 0nat,
{
    match tok(t, p) {
        Some(SpecToken::OpenBracket) => match spec_block_items(t, p + 1, Seq::empty()) {
            Err(e) => Err(e),
            Ok((b, n)) => Ok((b, n + 1)),
        },
        Some(SpecToken::Int) => spec_var_declaration(t, p),
        Some(SpecToken::Char) => spec_var_declaration(t, p),
        Some(SpecToken::Return) => spec_return_stmt(t, p),
        Some(SpecToken::If) => spec_if_stmt(t, p),
        Some(SpecToken::While) => spec_while_stmt(t, p),
        Some(SpecToken::Do) => match spec_do_while_rest(t, p + 1) {
            Err(e) => Err(e),
            Ok((s, n)) => Ok((s, n + 1)),
        },
        Some(SpecToken::For) => spec_for_stmt(t, p),
        Some(SpecToken::Switch) => spec_switch_stmt(t, p),
        Some(SpecToken::Break) => spec_jump_stmt(t, p, SpecStmt::Break, Expected::SemicolonAfterBreak),
        Some(SpecToken::Continue) => spec_jump_stmt(
            t,
            p,
            SpecStmt::Continue,
            Expected::SemicolonAfterContinue,
        ),
        _ => spec_expr_stmt(t, p),
    }
}

/// The statements of a block after its "{", up to and including the "}".
pub closed spec fn spec_block_items(t: Seq<SpecToken>, q: nat, acc: Seq<SpecStmt>) -> PRes<SpecStmt>
    decreases rem(t, q), 4nat, 1nat,
{
    block_items_rule(t, q, acc)
}

pub proof fn lemma_unfold_block_items(t: Seq<SpecToken>, q: nat, acc: Seq<SpecStmt>)
    ensures
        spec_block_items(t, q, acc) == block_items_rule(t, q, acc),
{
    reveal_with_fuel(spec_block_items, 2);
}

/// The grammar rule for `spec_block_items`.
pub open spec fn block_items_rule(t: Seq<SpecToken>, q: nat, acc: Seq<SpecStmt>) -> PRes<SpecStmt>
    decreases rem(t, q), 4nat, 0nat,
{
    match tok(t, q) {
        None => perr(Expected::CloseBraceForBlock, q),
        Some(SpecToken::ClosedBracket) => Ok((SpecStmt::Block(acc), 1)),
        Some(_) => match spec_statement(t, q) {
            Err(e) => Err(e),
            Ok((st, n)) => {
                if n == 0 {
                    perr(Expected::CloseBraceForBlock, q)
                } else {
                    match spec_block_items(t, q + n, acc.push(st)) {
                        Err(e) => Err(e),
                        Ok((b, k)) => Ok((b, n + k)),
                    }
                }
            },
        },
    }
}

/// block := "{" { statement } "}" | statement
pub closed spec fn spec_block(t: Seq<SpecToken>, p: nat) -> PRes<SpecStmt>
    decreases rem(t, p), 4nat, 1nat,
{
    block_rule(t, p)
}

pub proof fn lemma_unfold_block(t: Seq<SpecToken>, p: nat)
    ensures
        spec_block(t, p) == block_rule(t, p),
{
    reveal_with_fuel(spec_block, 2);
}

/// The grammar rule for `spec_block`.
pub open spec fn block_rule(t: Seq<SpecToken>, p: nat) -> PRes<SpecStmt>
    decreases rem(t, p), 4nat, 0nat,
{
    if tok(t, p) == Some(SpecToken::OpenBracket) {
        match spec_block_items(t, p + 1, Seq::empty()) {
            Err(e) => Err(e),
            Ok((b, n)) => Ok((b, n + 1)),
        }
    } else {
        spec_statement(t, p)
    }
}

/// var_declaration := type identifier [ "=" expression ] ";"
pub open spec fn spec_var_declaration(t: Seq<SpecToken>, p: nat) -> PRes<SpecStmt> {
    match spec_type(t, p) {
        Err(e) => Err(e),
        Ok(ty) => match tok(t, p + 1) {
            Some(SpecToken::Identifier(name)) => {
                if tok(t, p + 2) == Some(SpecToken::Operator(seq!['='])) {
                    match spec_expression(t, p + 3) {
                        Err(e) => Err(e),
                        Ok((v, n)) => {
                            if tok(t, p + 3 + n) == Some(SpecToken::Semicolon) {
                                Ok((SpecStmt::VarDeclaration { var_type: ty, name, value: Some(v) }, n + 4))
                            } else {
                                perr(Expected::SemicolonAfterVarDeclaration, p + 3 + n)
                            }
                        },
                    }
                } else if tok(t, p + 2) == Some(SpecToken::Semicolon) {
                    Ok((SpecStmt::VarDeclaration { var_type: ty, name, value: None }, 3))
                } else {
                    perr(Expected::SemicolonAfterVarDeclaration, p + 2)
                }
            },
            _ => perr(Expected::Identifier, p + 1),
        },
    }
}

/// return := "return" [ expression ] ";"
pub open spec fn spec_return_stmt(t: Seq<SpecToken>, p: nat) -> PRes<SpecStmt> {
    if tok(t, p + 1) == Some(SpecToken::Semicolon) {
        Ok((SpecStmt::ReturnStmt(None), 2))
    } else {
        match spec_expression(t, p + 1) {
            Err(e) => Err(e),
            Ok((v, n)) => {
                if tok(t, p + 1 + n) == Some(SpecToken::Semicolon) {
                    Ok((SpecStmt::ReturnStmt(Some(v)), n + 2))
                } else {
                    perr(Expected::SemicolonAfterReturn, p + 1 + n)
                }
            },
        }
    }
}

/// break := "break" ";"   and   continue := "continue" ";"
pub open spec fn spec_jump_stmt(t: Seq<SpecToken>, p: nat, s: SpecStmt, missing: Expected) -> PRes<SpecStmt> {
    if tok(t, p + 1) == Some(SpecToken::Semicolon) {
        Ok((s, 2))
    } else {
        perr(missing, p + 1)
    }
}

/// expression_statement := expression ";"
pub open spec fn spec_expr_stmt(t: Seq<SpecToken>, p: nat) -> PRes<SpecStmt> {
    match spec_expression(t, p) {
        Err(e) => Err(e),
        Ok((e, n)) => {
            if tok(t, p + n) == Some(SpecToken::Semicolon) {
                Ok((SpecStmt::Expr(e), n + 1))
            } else {
                perr(Expected::SemicolonAfterExpression, p + n)
            }
        },
    }
}

/// if := "if" "(" expression ")" block [ "else" block ]
pub closed spec fn spec_if_stmt(t: Seq<SpecToken>, p: nat) -> PRes<SpecStmt>
    decreases rem(t, p), 2nat, 1nat,
{
    if_stmt_rule(t, p)
}

pub proof fn lemma_unfold_if_stmt(t: Seq<SpecToken>, p: nat)
    ensures
        spec_if_stmt(t, p) == if_stmt_rule(t, p),
{
    reveal_with_fuel(spec_if_stmt, 2);
}

/// The grammar rule for `spec_if_stmt`.
pub open spec fn if_stmt_rule(t: Seq<SpecToken>, p: nat) -> PRes<SpecStmt>
    decreases rem(t, p), 2nat, 0nat,
{
    if tok(t, p + 1) != Some(SpecToken::OpenParentheses) {
        perr(Expected::OpenParenAfterIf, p + 1)
    } else {
        match spec_expression(t, p + 2) {
            Err(e) => Err(e),
            Ok((c, n)) => {
                let q = p + 2 + n;
                if tok(t, q) != Some(SpecToken::ClosedParentheses) {
                    perr(Expected::CloseParenAfterIfCondition, q)
                } else {
                    match spec_block(t, q + 1) {
                        Err(e) => Err(e),
                        Ok((th, m)) => {
                            let r = q + 1 + m;
                            if tok(t, r) == Some(SpecToken::Else) {
                                match spec_block(t, r + 1) {
                                    Err(e) => Err(e),
                                    Ok((el, k)) => Ok((
                                        SpecStmt::If {
                                            condition: c,
                                            b_then: Box::new(th),
                                            b_else: Some(Box::new(el)),
                                        },
                                        n + m + k + 4,
                                    )),
                                }
                            } else {
                                Ok((SpecStmt::If { condition: c, b_then: Box::new(th), b_else: None }, n + m + 3))
                            }
                        },
                    }
                }
            },
        }
    }
}

/// while := "while" "(" expression ")" block
pub closed spec fn spec_while_stmt(t: Seq<SpecToken>, p: nat) -> PRes<SpecStmt>
    decreases rem(t, p), 2nat, 1nat,
{
    while_stmt_rule(t, p)
}

pub proof fn lemma_unfold_while_stmt(t: Seq<SpecToken>, p: nat)
    ensures
        spec_while_stmt(t, p) == while_stmt_rule(t, p),
{
    reveal_with_fuel(spec_while_stmt, 2);
}

/// The grammar rule for `spec_while_stmt`.
pub open spec fn while_stmt_rule(t: Seq<SpecToken>, p: nat) -> PRes<SpecStmt>
    decreases rem(t, p), 2nat, 0nat,
{
    if tok(t, p + 1) != Some(SpecToken::OpenParentheses) {
        perr(Expected::OpenParenAfterWhile, p + 1)
    } else {
        match spec_expression(t, p + 2) {
            Err(e) => Err(e),
            Ok((c, n)) => {
                let q = p + 2 + n;
                if tok(t, q) != Some(SpecToken::ClosedParentheses) {
                    perr(Expected::CloseParenAfterWhileCondition, q)
                } else {
                    match spec_block(t, q + 1) {
                        Err(e) => Err(e),
                        Ok((b, m)) => Ok((SpecStmt::While { condition: c, body: Box::new(b) }, n + m + 3)),
                    }
                }
            },
        }
    }
}

/// do_while := "do" block "while" "(" expression ")" ";"   (read from the block on)
pub closed spec fn spec_do_while_rest(t: Seq<SpecToken>, b: nat) -> PRes<SpecStmt>
    decreases rem(t, b), 5nat, 1nat,
{
    do_while_rest_rule(t, b)
}

pub proof fn lemma_unfold_do_while_rest(t: Seq<SpecToken>, b: nat)
    ensures
        spec_do_while_rest(t, b) == do_while_rest_rule(t, b),
{
    reveal_with_fuel(spec_do_while_rest, 2);
}

/// The grammar rule for `spec_do_while_rest`.
pub open spec fn do_while_rest_rule(t: Seq<SpecToken>, b: nat) -> PRes<SpecStmt>
    decreases rem(t, b), 5nat, 0nat,
{
    match spec_block(t, b) {
        Err(e) => Err(e),
        Ok((body, n)) => {
            let q = b + n;
            if tok(t, q) != Some(SpecToken::While) {
                perr(Expected::WhileAfterDoBody, q)
            } else if tok(t, q + 1) != Some(SpecToken::OpenParentheses) {
                perr(Expected::OpenParenAfterWhile, q + 1)
            } else {
                match spec_expression(t, q + 2) {
                    Err(e) => Err(e),
                    Ok((c, m)) => {
                        let r = q + 2 + m;
                        if tok(t, r) != Some(SpecToken::ClosedParentheses) {
                            perr(Expected::CloseParenAfterDoWhileCondition, r)
                        } else if tok(t, r + 1) != Some(SpecToken::Semicolon) {
                            perr(Expected::SemicolonAfterDoWhile, r + 1)
                        } else {
                            Ok((SpecStmt::DoWhile { body: Box::new(body), condition: c }, n + m + 4))
                        }
                    },
                }
            }
        },
    }
}

/// for := "for" "(" ( ";" | statement ) expression ";" [ expression ] ")" block
pub closed spec fn spec_for_stmt(t: Seq<SpecToken>, p: nat) -> PRes<SpecStmt>
    decreases rem(t, p), 2nat, 1nat,
{
    for_stmt_rule(t, p)
}

pub proof fn lemma_unfold_for_stmt(t: Seq<SpecToken>, p: nat)
    ensures
        spec_for_stmt(t, p) == for_stmt_rule(t, p),
{
    reveal_with_fuel(spec_for_stmt, 2);
}

/// The grammar rule for `spec_for_stmt`.
pub open spec fn for_stmt_rule(t: Seq<SpecToken>, p: nat) -> PRes<SpecStmt>
    decreases rem(t, p), 2nat, 0nat,
{
    if tok(t, p + 1) != Some(SpecToken::OpenParentheses) {
        perr(Expected::OpenParenAfterFor, p + 1)
    } else {
        let init: PRes<Option<Box<SpecStmt>>> = if tok(t, p + 2) == Some(SpecToken::Semicolon) {
            Ok((None, 1))
        } else {
            match spec_statement(t, p + 2) {
                Err(e) => Err(e),
                Ok((s, n)) => Ok((Some(Box::new(s)), n)),
            }
        };
        match init {
            Err(e) => Err(e),
            Ok((init, n)) => {
                let a = p + 2 + n;
                match spec_expression(t, a) {
                    Err(e) => Err(e),
                    Ok((c, m)) => {
                        let b = a + m;
                        if tok(t, b) != Some(SpecToken::Semicolon) {
                            perr(Expected::SemicolonAfterForCondition, b)
                        } else {
                            let update: PRes<Option<SpecExpr>> = if tok(t, b + 1) == Some(
                                SpecToken::ClosedParentheses,
                            ) {
                                Ok((None, 0))
                            } else {
                                match spec_expression(t, b + 1) {
                                    Err(e) => Err(e),
                                    Ok((u, k)) => Ok((Some(u), k)),
                                }
                            };
                            match update {
                                Err(e) => Err(e),
                                Ok((update, k)) => {
                                    let d = b + 1 + k;
                                    if tok(t, d) != Some(SpecToken::ClosedParentheses) {
                                        perr(Expected::CloseParenAfterForUpdate, d)
                                    } else {
                                        match spec_block(t, d + 1) {
                                            Err(e) => Err(e),
                                            Ok((body, l)) => Ok((
                                                SpecStmt::For {
                                                    init,
                                                    condition: c,
                                                    update,
                                                    body: Box::new(body),
                                                },
                                                n + m + k + l + 4,
                                            )),
                                        }
                                    }
                                },
                            }
                        }
                    },
                }
            },
        }
    }
}

/// The statements of a switch case, up to the next "case", "default" or "}".
pub closed spec fn spec_case_body(t: Seq<SpecToken>, q: nat, acc: Seq<SpecStmt>) -> PRes<Seq<SpecStmt>>
    decreases rem(t, q), 4nat, 1nat,
{
    case_body_rule(t, q, acc)
}

pub proof fn lemma_unfold_case_body(t: Seq<SpecToken>, q: nat, acc: Seq<SpecStmt>)
    ensures
        spec_case_body(t, q, acc) == case_body_rule(t, q, acc),
{
    reveal_with_fuel(spec_case_body, 2);
}

/// The grammar rule for `spec_case_body`.
pub open spec fn case_body_rule(t: Seq<SpecToken>, q: nat, acc: Seq<SpecStmt>) -> PRes<Seq<SpecStmt>>
    decreases rem(t, q), 4nat, 0nat,
{
    match tok(t, q) {
        None => Ok((acc, 0)),
        Some(SpecToken::Case) => Ok((acc, 0)),
        Some(SpecToken::DefaultCase) => Ok((acc, 0)),
        Some(SpecToken::ClosedBracket) => Ok((acc, 0)),
        Some(_) => match spec_statement(t, q) {
            Err(e) => Err(e),
            Ok((st, n)) => {
                if n == 0 {
                    Ok((acc, 0))
                } else {
                    match spec_case_body(t, q + n, acc.push(st)) {
                        Err(e) => Err(e),
                        Ok((b, k)) => Ok((b, n + k)),
                    }
                }
            },
        },
    }
}

/// The cases of a switch, up to the "}" or the end of the input.
pub closed spec fn spec_switch_cases(t: Seq<SpecToken>, q: nat, acc: Seq<SpecSwitchCase>) -> PRes<Seq<SpecSwitchCase>>
    decreases rem(t, q), 2nat, 1nat,
{
    switch_cases_rule(t, q, acc)
}

pub proof fn lemma_unfold_switch_cases(t: Seq<SpecToken>, q: nat, acc: Seq<SpecSwitchCase>)
    ensures
        spec_switch_cases(t, q, acc) == switch_cases_rule(t, q, acc),
{
    reveal_with_fuel(spec_switch_cases, 2);
}

/// The grammar rule for `spec_switch_cases`.
pub open spec fn switch_cases_rule(t: Seq<SpecToken>, q: nat, acc: Seq<SpecSwitchCase>) -> PRes<Seq<SpecSwitchCase>>
    decreases rem(t, q), 2nat, 0nat,
{
    match tok(t, q) {
        None => Ok((acc, 0)),
        Some(SpecToken::ClosedBracket) => Ok((acc, 0)),
        Some(SpecToken::Case) => match spec_expression(t, q + 1) {
            Err(e) => Err(e),
            Ok((v, n)) => {
                let r = q + 1 + n;
                if tok(t, r) != Some(SpecToken::Colon) {
                    perr(Expected::ColonAfterCaseValue, r)
                } else {
                    match spec_case_body(t, r + 1, Seq::empty()) {
                        Err(e) => Err(e),
                        Ok((body, m)) => match spec_switch_cases(
                            t,
                            r + 1 + m,
                            acc.push(SpecSwitchCase { value: Some(v), body }),
                        ) {
                            Err(e) => Err(e),
                            Ok((cs, k)) => Ok((cs, n + m + k + 2)),
                        },
                    }
                }
            },
        },
        Some(SpecToken::DefaultCase) => {
            if tok(t, q + 1) != Some(SpecToken::Colon) {
                perr(Expected::ColonAfterDefault, q + 1)
            } else {
                match spec_case_body(t, q + 2, Seq::empty()) {
                    Err(e) => Err(e),
                    Ok((body, m)) => match spec_switch_cases(
                        t,
                        q + 2 + m,
                        acc.push(SpecSwitchCase { value: None, body }),
                    ) {
                        Err(e) => Err(e),
                        Ok((cs, k)) => Ok((cs, m + k + 2)),
                    },
                }
            }
        },
        Some(_) => perr(Expected::CaseDefaultOrCloseBrace, q),
    }
}

/// switch := "switch" "(" expression ")" "{" { case } "}"
pub closed spec fn spec_switch_stmt(t: Seq<SpecToken>, p: nat) -> PRes<SpecStmt>
    decreases rem(t, p), 2nat, 1nat,
{
    switch_stmt_rule(t, p)
}

pub proof fn lemma_unfold_switch_stmt(t: Seq<SpecToken>, p: nat)
    ensures
        spec_switch_stmt(t, p) == switch_stmt_rule(t, p),
{
    reveal_with_fuel(spec_switch_stmt, 2);
}

/// The grammar rule for `spec_switch_stmt`.
pub open spec fn switch_stmt_rule(t: Seq<SpecToken>, p: nat) -> PRes<SpecStmt>
    decreases rem(t, p), 2nat, 0nat,
{
    if tok(t, p + 1) != Some(SpecToken::OpenParentheses) {
        perr(Expected::OpenParenAfterSwitch, p + 1)
    } else {
        match spec_expression(t, p + 2) {
            Err(e) => Err(e),
            Ok((c, n)) => {
                let q = p + 2 + n;
                if tok(t, q) != Some(SpecToken::ClosedParentheses) {
                    perr(Expected::CloseParenAfterSwitchCondition, q)
                } else if tok(t, q + 1) != Some(SpecToken::OpenBracket) {
                    perr(Expected::OpenBraceForSwitchBody, q + 1)
                } else {
                    match spec_switch_cases(t, q + 2, Seq::empty()) {
                        Err(e) => Err(e),
                        Ok((cases, m)) => {
                            let r = q + 2 + m;
                            if tok(t, r) != Some(SpecToken::ClosedBracket) {
                                perr(Expected::CloseBraceForSwitchBody, r)
                            } else {
                                Ok((SpecStmt::Switch { cond: c, cases }, n + m + 5))
                            }
                        },
                    }
                }
            },
        }
    }
}

// ---------------------------------------------------------------------------
// Functions and programs.

/// param := type identifier
pub open spec fn spec_param(t: Seq<SpecToken>, p: nat) -> PRes<SpecParam> {
    match spec_type(t, p) {
        Err(e) => Err(e),
        Ok(ty) => match tok(t, p + 1) {
            Some(SpecToken::Identifier(name)) => Ok((SpecParam { param_type: ty, name }, 2)),
            _ => perr(Expected::ParameterName, p + 1),
        },
    }
}

/// params := [ param { "," param } ]   (empty when ")" follows)
pub open spec fn spec_params(t: Seq<SpecToken>, p: nat) -> PRes<Seq<SpecParam>> {
    if tok(t, p) == Some(SpecToken::ClosedParentheses) {
        Ok((Seq::empty(), 0))
    } else {
        match spec_param(t, p) {
            Err(e) => Err(e),
            Ok((x, n)) => match spec_params_rest(t, p + n, seq![x]) {
                Err(e) => Err(e),
                Ok((ps, m)) => Ok((ps, n + m)),
            },
        }
    }
}

pub open spec fn spec_params_rest(t: Seq<SpecToken>, q: nat, acc: Seq<SpecParam>) -> PRes<Seq<SpecParam>>
    decreases rem(t, q),
{
    if tok(t, q) == Some(SpecToken::Comma) {
        match spec_param(t, q + 1) {
            Err(e) => Err(e),
            Ok((x, n)) => match spec_params_rest(t, q + 1 + n, acc.push(x)) {
                Err(e) => Err(e),
                Ok((ps, m)) => Ok((ps, 1 + n + m)),
            },
        }
    } else {
        Ok((acc, 0))
    }
}

/// The statements of a function body, up to its "}" or the end of the input.
pub open spec fn spec_function_body(t: Seq<SpecToken>, q: nat, acc: Seq<SpecStmt>) -> PRes<Seq<SpecStmt>>
    decreases rem(t, q),
{
    match tok(t, q) {
        None => Ok((acc, 0)),
        Some(SpecToken::ClosedBracket) => Ok((acc, 0)),
        Some(_) => match spec_statement(t, q) {
            Err(e) => Err(e),
            Ok((st, n)) => {
                if n == 0 {
                    Ok((acc, 0))
                } else {
                    match spec_function_body(t, q + n, acc.push(st)) {
                        Err(e) => Err(e),
                        Ok((b, k)) => Ok((b, n + k)),
                    }
                }
            },
        },
    }
}

/// function := type identifier "(" params ")" "{" { statement } "}"
pub open spec fn spec_function(t: Seq<SpecToken>, p: nat) -> PRes<SpecFunction> {
    match spec_type(t, p) {
        Err(e) => Err(e),
        Ok(ty) => match tok(t, p + 1) {
            Some(SpecToken::Identifier(name)) => {
                if tok(t, p + 2) != Some(SpecToken::OpenParentheses) {
                    perr(Expected::OpenParenAfterFunctionName, p + 2)
                } else {
                    match spec_params(t, p + 3) {
                        Err(e) => Err(e),
                        Ok((params, n)) => {
                            let q = p + 3 + n;
                            if tok(t, q) != Some(SpecToken::ClosedParentheses) {
                                perr(Expected::CloseParenAfterParams, q)
                            } else if tok(t, q + 1) != Some(SpecToken::OpenBracket) {
                                perr(Expected::OpenBraceForFunctionBody, q + 1)
                            } else {
                                match spec_function_body(t, q + 2, Seq::empty()) {
                                    Err(e) => Err(e),
                                    Ok((body, m)) => {
                                        let r = q + 2 + m;
                                        if tok(t, r) != Some(SpecToken::ClosedBracket) {
                                            perr(Expected::CloseBraceForFunctionBody, r)
                                        } else {
                                            Ok((
                                                SpecFunction { ret_type: ty, name, params, body },
                                                n + m + 6,
                                            ))
                                        }
                                    },
                                }
                            }
                        },
                    }
                }
            },
            _ => perr(Expected::FunctionName, p + 1),
        },
    }
}

/// The functions from position `p` to the end of the input.
pub open spec fn spec_items(t: Seq<SpecToken>, p: nat, acc: Seq<SpecItem>) -> Result<Seq<SpecItem>, ParseError>
    decreases rem(t, p),
{
    if p >= t.len() {
        Ok(acc)
    } else {
        match spec_function(t, p) {
            Err(e) => Err(e),
            Ok((f, n)) => {
                if n == 0 {
                    Ok(acc)
                } else {
                    spec_items(t, p + n, acc.push(SpecItem::Function(f)))
                }
            },
        }
    }
}

/// Every item read is a function definition.
pub proof fn lemma_items_are_functions(t: Seq<SpecToken>, p: nat, acc: Seq<SpecItem>)
    requires
        forall|i: int| 0 <= i < acc.len() ==> #[trigger] acc[i] is Function,
    ensures
        spec_items(t, p, acc) matches Ok(items) ==> forall|i: int| 0 <= i < items.len() ==> #[trigger] items[i] is Function,
    decreases rem(t, p),
{
    if p < t.len() {
        match spec_function(t, p) {
            Ok((f, n)) => {
                if n > 0 {
                    let acc2 = acc.push(SpecItem::Function(f));
                    assert forall|i: int| 0 <= i < acc2.len() implies #[trigger] acc2[i] is Function by {
                        if i < acc.len() {
                            assert(acc2[i] == acc[i]);
                        }
                    }
                    lemma_items_are_functions(t, p + n, acc2);
                }
            },
            Err(_) => {},
        }
    }
}

/// A statement that starts with an identifier is an expression statement.
pub proof fn lemma_identifier_starts_expression_statement(t: Seq<SpecToken>, p: nat, name: Seq<char>)
    requires
        tok(t, p) == Some(SpecToken::Identifier(name)),
    ensures
        spec_statement(t, p) == spec_expr_stmt(t, p),
{
    lemma_unfold_statement(t, p);
}

/// The initializer of a `for` may be any statement: `for (S c; u) B` reads
/// the statement `S` that stands after the "(", then the condition, the
/// update and the body, and gathers them in that order.
pub proof fn lemma_for_init_is_any_statement(
    t: Seq<SpecToken>,
    p: nat,
    init: SpecStmt,
    n: nat,
    condition: SpecExpr,
    m: nat,
    update: SpecExpr,
    k: nat,
    body: SpecStmt,
    l: nat,
)
    requires
        tok(t, p + 1) == Some(SpecToken::OpenParentheses),
        tok(t, p + 2) != Some(SpecToken::Semicolon),
        spec_statement(t, p + 2) == Ok::<(SpecStmt, nat), ParseError>((init, n)),
        spec_expression(t, p + 2 + n) == Ok::<(SpecExpr, nat), ParseError>((condition, m)),
        tok(t, p + 2 + n + m) == Some(SpecToken::Semicolon),
        tok(t, p + 3 + n + m) != Some(SpecToken::ClosedParentheses),
        spec_expression(t, p + 3 + n + m) == Ok::<(SpecExpr, nat), ParseError>((update, k)),
        tok(t, p + 3 + n + m + k) == Some(SpecToken::ClosedParentheses),
        spec_block(t, p + 4 + n + m + k) == Ok::<(SpecStmt, nat), ParseError>((body, l)),
    ensures
        spec_for_stmt(t, p) == Ok::<(SpecStmt, nat), ParseError>((
            SpecStmt::For {
                init: Some(Box::new(init)),
                condition,
                update: Some(update),
                body: Box::new(body),
            },
            n + m + k + l + 4,
        )),
{
    lemma_unfold_for_stmt(t, p);
}

/// In particular an assignment such as `i = 0;` is accepted as the
/// initializer of a `for`: an initializer that starts with an identifier is
/// read as an expression statement.
pub proof fn lemma_for_accepts_expression_init(
    t: Seq<SpecToken>,
    p: nat,
    name: Seq<char>,
    init: SpecStmt,
    n: nat,
    condition: SpecExpr,
    m: nat,
    update: SpecExpr,
    k: nat,
    body: SpecStmt,
    l: nat,
)
    requires
        tok(t, p + 1) == Some(SpecToken::OpenParentheses),
        tok(t, p + 2) == Some(SpecToken::Identifier(name)),
        spec_expr_stmt(t, p + 2) == Ok::<(SpecStmt, nat), ParseError>((init, n)),
        spec_expression(t, p + 2 + n) == Ok::<(SpecExpr, nat), ParseError>((condition, m)),
        tok(t, p + 2 + n + m) == Some(SpecToken::Semicolon),
        tok(t, p + 3 + n + m) != Some(SpecToken::ClosedParentheses),
        spec_expression(t, p + 3 + n + m) == Ok::<(SpecExpr, nat), ParseError>((update, k)),
        tok(t, p + 3 + n + m + k) == Some(SpecToken::ClosedParentheses),
        spec_block(t, p + 4 + n + m + k) == Ok::<(SpecStmt, nat), ParseError>((body, l)),
    ensures
        init is Expr,
        spec_for_stmt(t, p) == Ok::<(SpecStmt, nat), ParseError>((
            SpecStmt::For {
                init: Some(Box::new(init)),
                condition,
                update: Some(update),
                body: Box::new(body),
            },
            n + m + k + l + 4,
        )),
{
    lemma_identifier_starts_expression_statement(t, p + 2, name);
    lemma_for_init_is_any_statement(t, p, init, n, condition, m, update, k, body, l);
}

/// At the end of the tokens the program read is empty: parsing again after
/// a complete parse gives no item.
pub proof fn lemma_parse_at_end(t: Seq<SpecToken>, p: nat)
    requires
        p >= t.len(),
    ensures
        spec_parse_program(t, p) == Ok::<SpecProgram, ParseError>(SpecProgram { items: Seq::empty() }),
{
}

/// program := { function }
pub open spec fn spec_parse_program(t: Seq<SpecToken>, p: nat) -> Result<SpecProgram, ParseError> {
    match spec_items(t, p, Seq::empty()) {
        Err(e) => Err(e),
        Ok(items) => Ok(SpecProgram { items }),
    }
}

/// Adds `d` to the number of tokens a rule consumed.
pub open spec fn shift<T>(r: PRes<T>, d: nat) -> PRes<T> {
    match r {
        Ok((x, n)) => Ok((x, n + d)),
        Err(e) => Err(e),
    }
}

/// Progress: a statement that parses consumes at least one token.
pub proof fn lemma_statement_progress(t: Seq<SpecToken>, p: nat)
    ensures
        spec_statement(t, p) matches Ok((_, n)) ==> n > 0,
{
    lemma_unfold_statement(t, p);
    lemma_unfold_block_items(t, p + 1, Seq::empty());
    lemma_unfold_if_stmt(t, p);
    lemma_unfold_while_stmt(t, p);
    lemma_unfold_for_stmt(t, p);
    lemma_unfold_switch_stmt(t, p);
    lemma_unfold_do_while_rest(t, p + 1);
}

} // verus!
