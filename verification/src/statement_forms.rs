use vstd::prelude::*;
use crate::ast::{SpecExpr, SpecStmt, Type};
use crate::grammar::{
    lemma_unfold_block_items, lemma_unfold_do_while_rest, lemma_unfold_if_stmt,
    lemma_unfold_statement, lemma_unfold_while_stmt, spec_block, spec_expression, spec_statement, tok,
    ParseError,
};
use crate::lexer::SpecToken;

verus! {

/// `if ( c ) B1 else B2` is read as the `if` with condition `c` and the two
/// branches, in that order.
pub proof fn lemma_if_else_form(
    t: Seq<SpecToken>,
    p: nat,
    c: SpecExpr,
    n: nat,
    b_then: SpecStmt,
    m: nat,
    b_else: SpecStmt,
    k: nat,
)
    requires
        tok(t, p) == Some(SpecToken::If),
        tok(t, p + 1) == Some(SpecToken::OpenParentheses),
        spec_expression(t, p + 2) == Ok::<(SpecExpr, nat), ParseError>((c, n)),
        tok(t, p + 2 + n) == Some(SpecToken::ClosedParentheses),
        spec_block(t, p + 3 + n) == Ok::<(SpecStmt, nat), ParseError>((b_then, m)),
        tok(t, p + 3 + n + m) == Some(SpecToken::Else),
        spec_block(t, p + 4 + n + m) == Ok::<(SpecStmt, nat), ParseError>((b_else, k)),
    ensures
        spec_statement(t, p) == Ok::<(SpecStmt, nat), ParseError>((
            SpecStmt::If { condition: c, b_then: Box::new(b_then), b_else: Some(Box::new(b_else)) },
            n + m + k + 4,
        )),
{
    lemma_unfold_statement(t, p);
    lemma_unfold_if_stmt(t, p);
}

/// `if ( c ) B` not followed by `else` is read as an `if` without `else`.
pub proof fn lemma_if_form(t: Seq<SpecToken>, p: nat, c: SpecExpr, n: nat, b_then: SpecStmt, m: nat)
    requires
        tok(t, p) == Some(SpecToken::If),
        tok(t, p + 1) == Some(SpecToken::OpenParentheses),
        spec_expression(t, p + 2) == Ok::<(SpecExpr, nat), ParseError>((c, n)),
        tok(t, p + 2 + n) == Some(SpecToken::ClosedParentheses),
        spec_block(t, p + 3 + n) == Ok::<(SpecStmt, nat), ParseError>((b_then, m)),
        tok(t, p + 3 + n + m) != Some(SpecToken::Else),
    ensures
        spec_statement(t, p) == Ok::<(SpecStmt, nat), ParseError>((
            SpecStmt::If { condition: c, b_then: Box::new(b_then), b_else: None },
            n + m + 3,
        )),
{
    lemma_unfold_statement(t, p);
    lemma_unfold_if_stmt(t, p);
}

/// `while ( c ) B` is read as the loop with condition `c` and body `B`.
pub proof fn lemma_while_form(t: Seq<SpecToken>, p: nat, c: SpecExpr, n: nat, body: SpecStmt, m: nat)
    requires
        tok(t, p) == Some(SpecToken::While),
        tok(t, p + 1) == Some(SpecToken::OpenParentheses),
        spec_expression(t, p + 2) == Ok::<(SpecExpr, nat), ParseError>((c, n)),
        tok(t, p + 2 + n) == Some(SpecToken::ClosedParentheses),
        spec_block(t, p + 3 + n) == Ok::<(SpecStmt, nat), ParseError>((body, m)),
    ensures
        spec_statement(t, p) == Ok::<(SpecStmt, nat), ParseError>((
            SpecStmt::While { condition: c, body: Box::new(body) },
            n + m + 3,
        )),
{
    lemma_unfold_statement(t, p);
    lemma_unfold_while_stmt(t, p);
}

/// `do B while ( c ) ;` is read as the do-while with body `B` and condition `c`.
pub proof fn lemma_do_while_form(t: Seq<SpecToken>, p: nat, body: SpecStmt, n: nat, c: SpecExpr, m: nat)
    requires
        tok(t, p) == Some(SpecToken::Do),
        spec_block(t, p + 1) == Ok::<(SpecStmt, nat), ParseError>((body, n)),
        tok(t, p + 1 + n) == Some(SpecToken::While),
        tok(t, p + 2 + n) == Some(SpecToken::OpenParentheses),
        spec_expression(t, p + 3 + n) == Ok::<(SpecExpr, nat), ParseError>((c, m)),
        tok(t, p + 3 + n + m) == Some(SpecToken::ClosedParentheses),
        tok(t, p + 4 + n + m) == Some(SpecToken::Semicolon),
    ensures
        spec_statement(t, p) == Ok::<(SpecStmt, nat), ParseError>((
            SpecStmt::DoWhile { body: Box::new(body), condition: c },
            n + m + 5,
        )),
{
    lemma_unfold_statement(t, p);
    lemma_unfold_do_while_rest(t, p + 1);
}

/// `return ;` is a return without value, `return e ;` one with the value `e`.
pub proof fn lemma_return_forms(t: Seq<SpecToken>, p: nat, v: SpecExpr, n: nat)
    requires
        tok(t, p) == Some(SpecToken::Return),
    ensures
        tok(t, p + 1) == Some(SpecToken::Semicolon) ==> spec_statement(t, p) == Ok::<(SpecStmt, nat), ParseError>(
            (SpecStmt::ReturnStmt(None), 2),
        ),
        tok(t, p + 1) != Some(SpecToken::Semicolon) && spec_expression(t, p + 1) == Ok::<(SpecExpr, nat), ParseError>((v, n))
            && tok(t, p + 1 + n) == Some(SpecToken::Semicolon) ==> spec_statement(t, p) == Ok::<
            (SpecStmt, nat),
            ParseError,
        >((SpecStmt::ReturnStmt(Some(v)), n + 2)),
{
    lemma_unfold_statement(t, p);
}

/// `int x ;` and `char x ;` declare `x` without a value; with `= e` before
/// the ";" they declare it with the value `e`.
pub proof fn lemma_declaration_forms(t: Seq<SpecToken>, p: nat, name: Seq<char>, v: SpecExpr, n: nat)
    requires
        tok(t, p) == Some(SpecToken::Int) || tok(t, p) == Some(SpecToken::Char),
        tok(t, p + 1) == Some(SpecToken::Identifier(name)),
    ensures
        ({
            let ty = if tok(t, p) == Some(SpecToken::Int) {
                Type::Int
            } else {
                Type::Char
            };
            &&& tok(t, p + 2) == Some(SpecToken::Semicolon) ==> spec_statement(t, p) == Ok::<(SpecStmt, nat), ParseError>(
                (SpecStmt::VarDeclaration { var_type: ty, name, value: None }, 3),
            )
            &&& tok(t, p + 2) == Some(SpecToken::Operator(seq!['='])) && spec_expression(t, p + 3) == Ok::<
                (SpecExpr, nat),
                ParseError,
            >((v, n)) && tok(t, p + 3 + n) == Some(SpecToken::Semicolon) ==> spec_statement(t, p) == Ok::<
                (SpecStmt, nat),
                ParseError,
            >((SpecStmt::VarDeclaration { var_type: ty, name, value: Some(v) }, n + 4))
        }),
{
    lemma_unfold_statement(t, p);
}

/// `break ;` and `continue ;` are read as themselves.
pub proof fn lemma_jump_forms(t: Seq<SpecToken>, p: nat)
    requires
        tok(t, p + 1) == Some(SpecToken::Semicolon),
    ensures
        tok(t, p) == Some(SpecToken::Break) ==> spec_statement(t, p) == Ok::<(SpecStmt, nat), ParseError>(
            (SpecStmt::Break, 2),
        ),
        tok(t, p) == Some(SpecToken::Continue) ==> spec_statement(t, p) == Ok::<(SpecStmt, nat), ParseError>(
            (SpecStmt::Continue, 2),
        ),
{
    lemma_unfold_statement(t, p);
}

/// `{ S }` is the block of the one statement `S`, and `{ }` the empty block.
pub proof fn lemma_block_forms(t: Seq<SpecToken>, p: nat, s: SpecStmt, n: nat)
    requires
        tok(t, p) == Some(SpecToken::OpenBracket),
    ensures
        tok(t, p + 1) == Some(SpecToken::ClosedBracket) ==> spec_statement(t, p) == Ok::<(SpecStmt, nat), ParseError>(
            (SpecStmt::Block(Seq::empty()), 2),
        ),
        tok(t, p + 1) != Some(SpecToken::ClosedBracket) && tok(t, p + 1) is Some && spec_statement(t, p + 1) == Ok::<
            (SpecStmt, nat),
            ParseError,
        >((s, n)) && n > 0 && tok(t, p + 1 + n) == Some(SpecToken::ClosedBracket) ==> spec_statement(t, p) == Ok::<
            (SpecStmt, nat),
            ParseError,
        >((SpecStmt::Block(seq![s]), n + 2)),
{
    lemma_unfold_statement(t, p);
    lemma_unfold_block_items(t, p + 1, Seq::empty());
    if tok(t, p + 1) != Some(SpecToken::ClosedBracket) && tok(t, p + 1) is Some {
        lemma_unfold_block_items(t, p + 1 + n, seq![s]);
        assert(Seq::<SpecStmt>::empty().push(s) == seq![s]);
    }
}

} // verus!
