use vstd::prelude::*;
use crate::ast::SpecExpr;
use crate::grammar::{
    lemma_unfold_binary, lemma_unfold_binary_rest, lemma_unfold_expression,
    lemma_unfold_identifier_or_call, lemma_unfold_operand, lemma_unfold_postfix,
    lemma_unfold_postfix_rest, lemma_unfold_primary, lemma_unfold_unary, level_op, postfix_op,
    spec_binary, spec_expression, spec_unary, tok, ParseError,
};
use crate::lexer::SpecToken;

verus! {

/// An identifier that is neither called nor followed by "++" or "--" is a
/// whole operand.
proof fn lemma_identifier_operand(t: Seq<SpecToken>, p: nat, x: Seq<char>)
    requires
        tok(t, p) == Some(SpecToken::Identifier(x)),
        tok(t, p + 1) != Some(SpecToken::OpenParentheses),
        !(tok(t, p + 1) matches Some(SpecToken::Operator(op)) && postfix_op(op)),
    ensures
        spec_unary(t, p) == Ok::<(SpecExpr, nat), ParseError>((SpecExpr::Identifier(x), 1)),
{
    lemma_unfold_unary(t, p);
    lemma_unfold_postfix(t, p);
    lemma_unfold_primary(t, p);
    lemma_unfold_identifier_or_call(t, p, x);
    lemma_unfold_postfix_rest(t, p + 1, SpecExpr::Identifier(x));
}

/// A binary level whose operand is followed by no operator of that level is
/// just the operand.
proof fn lemma_binary_lift(t: Seq<SpecToken>, p: nat, level: nat, e: SpecExpr, n: nat)
    requires
        level >= 1,
        spec_binary(t, p, (level - 1) as nat) == Ok::<(SpecExpr, nat), ParseError>((e, n)),
        !(tok(t, p + n) matches Some(SpecToken::Operator(op)) && level_op(level, op)),
    ensures
        spec_binary(t, p, level) == Ok::<(SpecExpr, nat), ParseError>((e, n)),
{
    lemma_unfold_binary(t, p, level);
    lemma_unfold_operand(t, p, level);
    lemma_unfold_binary_rest(t, p + n, level, e);
}

/// The multiplicative operators `*`, `/` and `%` bind tighter than the
/// additive `+` and `-`: `x + y * z` (or `/`, `%`; or `-` for `+`) reads as
/// `x + (y * z)`, whatever the names and whatever follows, provided it is no
/// operator.
pub proof fn lemma_multiplication_binds_tighter(
    t: Seq<SpecToken>,
    p: nat,
    x: Seq<char>,
    add: Seq<char>,
    y: Seq<char>,
    mul: Seq<char>,
    z: Seq<char>,
)
    requires
        add == seq!['+'] || add == seq!['-'],
        mul == seq!['*'] || mul == seq!['/'] || mul == seq!['%'],
        tok(t, p) == Some(SpecToken::Identifier(x)),
        tok(t, p + 1) == Some(SpecToken::Operator(add)),
        tok(t, p + 2) == Some(SpecToken::Identifier(y)),
        tok(t, p + 3) == Some(SpecToken::Operator(mul)),
        tok(t, p + 4) == Some(SpecToken::Identifier(z)),
        tok(t, p + 5) != Some(SpecToken::OpenParentheses),
        !(tok(t, p + 5) matches Some(SpecToken::Operator(_))),
    ensures
        spec_expression(t, p) == Ok::<(SpecExpr, nat), ParseError>((
            SpecExpr::BinaryOp {
                left: Box::new(SpecExpr::Identifier(x)),
                op: add,
                right: Box::new(
                    SpecExpr::BinaryOp {
                        left: Box::new(SpecExpr::Identifier(y)),
                        op: mul,
                        right: Box::new(SpecExpr::Identifier(z)),
                    },
                ),
            },
            5,
        )),
{
    assert(add.len() == 1 && mul.len() == 1);
    assert(add[0] != mul[0]);
    assert(!level_op(0, add)) by {
        assert(seq!['*'][0] == '*' && seq!['/'][0] == '/' && seq!['%'][0] == '%');
    }
    assert(!postfix_op(add) && !postfix_op(mul));
    let idx = SpecExpr::Identifier(x);
    let idy = SpecExpr::Identifier(y);
    let idz = SpecExpr::Identifier(z);
    let product = SpecExpr::BinaryOp { left: Box::new(idy), op: mul, right: Box::new(idz) };
    let sum = SpecExpr::BinaryOp { left: Box::new(idx), op: add, right: Box::new(product) };
    // y * z at the tightest level
    lemma_identifier_operand(t, p + 4, z);
    lemma_identifier_operand(t, p + 2, y);
    lemma_unfold_operand(t, p + 4, 0);
    lemma_unfold_binary_rest(t, p + 5, 0, product);
    lemma_unfold_binary_rest(t, p + 3, 0, idy);
    lemma_unfold_operand(t, p + 2, 0);
    lemma_unfold_binary(t, p + 2, 0);
    assert(spec_binary(t, p + 2, 0) == Ok::<(SpecExpr, nat), ParseError>((product, 3)));
    // x alone at the tightest level
    lemma_identifier_operand(t, p, x);
    lemma_unfold_operand(t, p, 0);
    lemma_unfold_binary_rest(t, p + 1, 0, idx);
    lemma_unfold_binary(t, p, 0);
    assert(spec_binary(t, p, 0) == Ok::<(SpecExpr, nat), ParseError>((idx, 1)));
    // x + (y * z) at the additive level
    lemma_unfold_operand(t, p + 2, 1);
    lemma_unfold_binary_rest(t, p + 5, 1, sum);
    lemma_unfold_binary_rest(t, p + 1, 1, idx);
    lemma_unfold_operand(t, p, 1);
    lemma_unfold_binary(t, p, 1);
    assert(spec_binary(t, p, 1) == Ok::<(SpecExpr, nat), ParseError>((sum, 5)));
    // the looser levels and the assignment level leave it as it is
    lemma_binary_lift(t, p, 2, sum, 5);
    lemma_binary_lift(t, p, 3, sum, 5);
    lemma_binary_lift(t, p, 4, sum, 5);
    lemma_unfold_expression(t, p);
}

/// The token at `q` ends an operand at binary level `level`: it is no
/// operator of that level or a tighter one, no "++" or "--", and no "(".
pub open spec fn ends_operand(t: Seq<SpecToken>, q: nat, level: nat) -> bool {
    match tok(t, q) {
        Some(SpecToken::Operator(op)) => !postfix_op(op) && forall|k: nat| k <= level ==> !#[trigger] level_op(k, op),
        Some(SpecToken::OpenParentheses) => false,
        _ => true,
    }
}

/// `op` is an operator of level `level` and of no tighter level, and not "++" or "--".
pub open spec fn operator_of_level(op: Seq<char>, level: nat) -> bool {
    &&& level_op(level, op)
    &&& forall|k: nat| k < level ==> !#[trigger] level_op(k, op)
    &&& !postfix_op(op)
}

/// No operator and no "(" stands at `q`.
pub open spec fn plain_end(t: Seq<SpecToken>, q: nat) -> bool {
    &&& tok(t, q) != Some(SpecToken::OpenParentheses)
    &&& !(tok(t, q) matches Some(SpecToken::Operator(_)))
}

proof fn lemma_single(t: Seq<SpecToken>, p: nat, x: Seq<char>, level: nat)
    requires
        tok(t, p) == Some(SpecToken::Identifier(x)),
        ends_operand(t, p + 1, level),
    ensures
        spec_binary(t, p, level) == Ok::<(SpecExpr, nat), ParseError>((SpecExpr::Identifier(x), 1)),
    decreases level,
{
    lemma_identifier_operand(t, p, x);
    lemma_unfold_binary(t, p, level);
    lemma_unfold_operand(t, p, level);
    if level > 0 {
        lemma_single(t, p, x, (level - 1) as nat);
    }
    lemma_unfold_binary_rest(t, p + 1, level, SpecExpr::Identifier(x));
    match tok(t, p + 1) {
        Some(SpecToken::Operator(op)) => {
            assert(!level_op(level, op));
        },
        _ => {},
    }
}

proof fn lemma_pair(t: Seq<SpecToken>, p: nat, y: Seq<char>, op: Seq<char>, z: Seq<char>, inner: nat, level: nat)
    requires
        tok(t, p) == Some(SpecToken::Identifier(y)),
        tok(t, p + 1) == Some(SpecToken::Operator(op)),
        tok(t, p + 2) == Some(SpecToken::Identifier(z)),
        plain_end(t, p + 3),
        operator_of_level(op, inner),
        inner <= level <= 4,
    ensures
        spec_binary(t, p, level) == Ok::<(SpecExpr, nat), ParseError>((
            SpecExpr::BinaryOp {
                left: Box::new(SpecExpr::Identifier(y)),
                op,
                right: Box::new(SpecExpr::Identifier(z)),
            },
            3,
        )),
    decreases level,
{
    let e = SpecExpr::BinaryOp {
        left: Box::new(SpecExpr::Identifier(y)),
        op,
        right: Box::new(SpecExpr::Identifier(z)),
    };
    if level == inner {
        lemma_unfold_binary(t, p, level);
        lemma_unfold_operand(t, p, level);
        lemma_unfold_operand(t, p + 2, level);
        lemma_identifier_operand(t, p, y);
        lemma_identifier_operand(t, p + 2, z);
        if level > 0 {
            lemma_single(t, p, y, (level - 1) as nat);
            lemma_single(t, p + 2, z, (level - 1) as nat);
        }
        lemma_unfold_binary_rest(t, p + 1, level, SpecExpr::Identifier(y));
        lemma_unfold_binary_rest(t, p + 3, level, e);
    } else {
        lemma_pair(t, p, y, op, z, inner, (level - 1) as nat);
        lemma_binary_lift(t, p, level, e, 3);
    }
}

proof fn lemma_lift_to_top(t: Seq<SpecToken>, p: nat, level: nat, e: SpecExpr, n: nat)
    requires
        level <= 4,
        spec_binary(t, p, level) == Ok::<(SpecExpr, nat), ParseError>((e, n)),
        !(tok(t, p + n) matches Some(SpecToken::Operator(_))),
    ensures
        spec_expression(t, p) == Ok::<(SpecExpr, nat), ParseError>((e, n)),
    decreases 4 - level,
{
    if level < 4 {
        lemma_binary_lift(t, p, level + 1, e, n);
        lemma_lift_to_top(t, p, level + 1, e, n);
    } else {
        lemma_unfold_expression(t, p);
    }
}

/// An operator of a tighter level binds its operands first: with `op1`
/// looser than `op2`, `x op1 y op2 z` reads as `x op1 (y op2 z)`.
pub proof fn lemma_tighter_level_groups_first(
    t: Seq<SpecToken>,
    p: nat,
    x: Seq<char>,
    op1: Seq<char>,
    y: Seq<char>,
    op2: Seq<char>,
    z: Seq<char>,
    l1: nat,
    l2: nat,
)
    requires
        tok(t, p) == Some(SpecToken::Identifier(x)),
        tok(t, p + 1) == Some(SpecToken::Operator(op1)),
        tok(t, p + 2) == Some(SpecToken::Identifier(y)),
        tok(t, p + 3) == Some(SpecToken::Operator(op2)),
        tok(t, p + 4) == Some(SpecToken::Identifier(z)),
        plain_end(t, p + 5),
        operator_of_level(op1, l1),
        operator_of_level(op2, l2),
        l2 < l1 <= 4,
    ensures
        spec_expression(t, p) == Ok::<(SpecExpr, nat), ParseError>((
            SpecExpr::BinaryOp {
                left: Box::new(SpecExpr::Identifier(x)),
                op: op1,
                right: Box::new(
                    SpecExpr::BinaryOp {
                        left: Box::new(SpecExpr::Identifier(y)),
                        op: op2,
                        right: Box::new(SpecExpr::Identifier(z)),
                    },
                ),
            },
            5,
        )),
{
    let inner = SpecExpr::BinaryOp {
        left: Box::new(SpecExpr::Identifier(y)),
        op: op2,
        right: Box::new(SpecExpr::Identifier(z)),
    };
    let whole = SpecExpr::BinaryOp { left: Box::new(SpecExpr::Identifier(x)), op: op1, right: Box::new(inner) };
    lemma_single(t, p, x, (l1 - 1) as nat);
    lemma_pair(t, p + 2, y, op2, z, l2, (l1 - 1) as nat);
    lemma_unfold_binary(t, p, l1);
    lemma_unfold_operand(t, p, l1);
    lemma_unfold_operand(t, p + 2, l1);
    lemma_unfold_binary_rest(t, p + 1, l1, SpecExpr::Identifier(x));
    lemma_unfold_binary_rest(t, p + 5, l1, whole);
    lemma_lift_to_top(t, p, l1, whole, 5);
}

/// Operators of one level group to the left: `x op1 y op2 z` reads as
/// `(x op1 y) op2 z`.
pub proof fn lemma_same_level_groups_left(
    t: Seq<SpecToken>,
    p: nat,
    x: Seq<char>,
    op1: Seq<char>,
    y: Seq<char>,
    op2: Seq<char>,
    z: Seq<char>,
    level: nat,
)
    requires
        tok(t, p) == Some(SpecToken::Identifier(x)),
        tok(t, p + 1) == Some(SpecToken::Operator(op1)),
        tok(t, p + 2) == Some(SpecToken::Identifier(y)),
        tok(t, p + 3) == Some(SpecToken::Operator(op2)),
        tok(t, p + 4) == Some(SpecToken::Identifier(z)),
        plain_end(t, p + 5),
        operator_of_level(op1, level),
        operator_of_level(op2, level),
        level <= 4,
    ensures
        spec_expression(t, p) == Ok::<(SpecExpr, nat), ParseError>((
            SpecExpr::BinaryOp {
                left: Box::new(
                    SpecExpr::BinaryOp {
                        left: Box::new(SpecExpr::Identifier(x)),
                        op: op1,
                        right: Box::new(SpecExpr::Identifier(y)),
                    },
                ),
                op: op2,
                right: Box::new(SpecExpr::Identifier(z)),
            },
            5,
        )),
{
    let first = SpecExpr::BinaryOp {
        left: Box::new(SpecExpr::Identifier(x)),
        op: op1,
        right: Box::new(SpecExpr::Identifier(y)),
    };
    let whole = SpecExpr::BinaryOp { left: Box::new(first), op: op2, right: Box::new(SpecExpr::Identifier(z)) };
    lemma_identifier_operand(t, p, x);
    lemma_identifier_operand(t, p + 2, y);
    lemma_identifier_operand(t, p + 4, z);
    if level > 0 {
        lemma_single(t, p, x, (level - 1) as nat);
        lemma_single(t, p + 2, y, (level - 1) as nat);
        lemma_single(t, p + 4, z, (level - 1) as nat);
    }
    lemma_unfold_binary(t, p, level);
    lemma_unfold_operand(t, p, level);
    lemma_unfold_operand(t, p + 2, level);
    lemma_unfold_operand(t, p + 4, level);
    lemma_unfold_binary_rest(t, p + 1, level, SpecExpr::Identifier(x));
    lemma_unfold_binary_rest(t, p + 3, level, first);
    lemma_unfold_binary_rest(t, p + 5, level, whole);
    lemma_lift_to_top(t, p, level, whole, 5);
}

/// The binary operators in order of binding, tightest first: `* / %`, then
/// `+ -`, then `< <= > >=`, then `== !=`, then `&&`.
pub proof fn lemma_operator_levels()
    ensures
        operator_of_level(seq!['*'], 0),
        operator_of_level(seq!['/'], 0),
        operator_of_level(seq!['%'], 0),
        operator_of_level(seq!['+'], 1),
        operator_of_level(seq!['-'], 1),
        operator_of_level(seq!['<'], 2),
        operator_of_level(seq!['<', '='], 2),
        operator_of_level(seq!['>'], 2),
        operator_of_level(seq!['>', '='], 2),
        operator_of_level(seq!['=', '='], 3),
        operator_of_level(seq!['!', '='], 3),
        operator_of_level(seq!['&', '&'], 4),
{
    assert(!level_op(0, seq!['+'])) by {
        assert(seq!['+'][0] != seq!['*'][0] && seq!['+'][0] != seq!['/'][0] && seq!['+'][0] != seq!['%'][0]);
    }
    assert(!level_op(0, seq!['-'])) by {
        assert(seq!['-'][0] != seq!['*'][0] && seq!['-'][0] != seq!['/'][0] && seq!['-'][0] != seq!['%'][0]);
    }
    assert(seq!['+'].len() == 1 && seq!['-'].len() == 1 && seq!['+', '+'].len() == 2 && seq!['-', '-'].len() == 2);
    assert(!postfix_op(seq!['+']) && !postfix_op(seq!['-']));
    assert(forall|k: nat| k < 1 ==> !#[trigger] level_op(k, seq!['+']));
    assert(forall|k: nat| k < 1 ==> !#[trigger] level_op(k, seq!['-']));
    assert(seq!['*'][0] == '*' && seq!['/'][0] == '/' && seq!['%'][0] == '%');
    assert(seq!['+'][0] == '+' && seq!['-'][0] == '-' && seq!['<'][0] == '<' && seq!['>'][0] == '>');
    assert(seq!['<', '='][0] == '<' && seq!['>', '='][0] == '>' && seq!['=', '='][0] == '=');
    assert(seq!['!', '='][0] == '!' && seq!['&', '&'][0] == '&' && seq!['+', '+'][0] == '+');
    assert(seq!['-', '-'][0] == '-' && seq!['+', '+'][1] == '+' && seq!['-', '-'][1] == '-');
    assert(seq!['<', '='][1] == '=' && seq!['>', '='][1] == '=');
}

/// `+` and `-` bind tighter than the comparisons: `x < y + z` reads as
/// `x < (y + z)`, for each comparison and each additive operator.
pub proof fn lemma_addition_binds_tighter_than_comparison(
    t: Seq<SpecToken>,
    p: nat,
    x: Seq<char>,
    cmp_op: Seq<char>,
    y: Seq<char>,
    add: Seq<char>,
    z: Seq<char>,
)
    requires
        cmp_op == seq!['<'] || cmp_op == seq!['<', '='] || cmp_op == seq!['>'] || cmp_op == seq!['>', '='],
        add == seq!['+'] || add == seq!['-'],
        tok(t, p) == Some(SpecToken::Identifier(x)),
        tok(t, p + 1) == Some(SpecToken::Operator(cmp_op)),
        tok(t, p + 2) == Some(SpecToken::Identifier(y)),
        tok(t, p + 3) == Some(SpecToken::Operator(add)),
        tok(t, p + 4) == Some(SpecToken::Identifier(z)),
        plain_end(t, p + 5),
    ensures
        spec_expression(t, p) == Ok::<(SpecExpr, nat), ParseError>((
            SpecExpr::BinaryOp {
                left: Box::new(SpecExpr::Identifier(x)),
                op: cmp_op,
                right: Box::new(
                    SpecExpr::BinaryOp {
                        left: Box::new(SpecExpr::Identifier(y)),
                        op: add,
                        right: Box::new(SpecExpr::Identifier(z)),
                    },
                ),
            },
            5,
        )),
{
    lemma_operator_levels();
    lemma_tighter_level_groups_first(t, p, x, cmp_op, y, add, z, 2, 1);
}

/// The comparisons bind tighter than `==` and `!=`: `x == y < z` reads as
/// `x == (y < z)`.
pub proof fn lemma_comparison_binds_tighter_than_equality(
    t: Seq<SpecToken>,
    p: nat,
    x: Seq<char>,
    eq: Seq<char>,
    y: Seq<char>,
    cmp_op: Seq<char>,
    z: Seq<char>,
)
    requires
        eq == seq!['=', '='] || eq == seq!['!', '='],
        cmp_op == seq!['<'] || cmp_op == seq!['<', '='] || cmp_op == seq!['>'] || cmp_op == seq!['>', '='],
        tok(t, p) == Some(SpecToken::Identifier(x)),
        tok(t, p + 1) == Some(SpecToken::Operator(eq)),
        tok(t, p + 2) == Some(SpecToken::Identifier(y)),
        tok(t, p + 3) == Some(SpecToken::Operator(cmp_op)),
        tok(t, p + 4) == Some(SpecToken::Identifier(z)),
        plain_end(t, p + 5),
    ensures
        spec_expression(t, p) == Ok::<(SpecExpr, nat), ParseError>((
            SpecExpr::BinaryOp {
                left: Box::new(SpecExpr::Identifier(x)),
                op: eq,
                right: Box::new(
                    SpecExpr::BinaryOp {
                        left: Box::new(SpecExpr::Identifier(y)),
                        op: cmp_op,
                        right: Box::new(SpecExpr::Identifier(z)),
                    },
                ),
            },
            5,
        )),
{
    lemma_operator_levels();
    lemma_tighter_level_groups_first(t, p, x, eq, y, cmp_op, z, 3, 2);
}

/// `==` and `!=` bind tighter than `&&`: `x && y == z` reads as `x && (y == z)`.
pub proof fn lemma_equality_binds_tighter_than_and(
    t: Seq<SpecToken>,
    p: nat,
    x: Seq<char>,
    y: Seq<char>,
    eq: Seq<char>,
    z: Seq<char>,
)
    requires
        eq == seq!['=', '='] || eq == seq!['!', '='],
        tok(t, p) == Some(SpecToken::Identifier(x)),
        tok(t, p + 1) == Some(SpecToken::Operator(seq!['&', '&'])),
        tok(t, p + 2) == Some(SpecToken::Identifier(y)),
        tok(t, p + 3) == Some(SpecToken::Operator(eq)),
        tok(t, p + 4) == Some(SpecToken::Identifier(z)),
        plain_end(t, p + 5),
    ensures
        spec_expression(t, p) == Ok::<(SpecExpr, nat), ParseError>((
            SpecExpr::BinaryOp {
                left: Box::new(SpecExpr::Identifier(x)),
                op: seq!['&', '&'],
                right: Box::new(
                    SpecExpr::BinaryOp {
                        left: Box::new(SpecExpr::Identifier(y)),
                        op: eq,
                        right: Box::new(SpecExpr::Identifier(z)),
                    },
                ),
            },
            5,
        )),
{
    lemma_operator_levels();
    lemma_tighter_level_groups_first(t, p, x, seq!['&', '&'], y, eq, z, 4, 3);
}

/// Additive and multiplicative operators group to the left: `x - y + z`
/// reads as `(x - y) + z` and `x / y * z` as `(x / y) * z`.
pub proof fn lemma_arithmetic_groups_left(
    t: Seq<SpecToken>,
    p: nat,
    x: Seq<char>,
    op1: Seq<char>,
    y: Seq<char>,
    op2: Seq<char>,
    z: Seq<char>,
)
    requires
        ((op1 == seq!['+'] || op1 == seq!['-']) && (op2 == seq!['+'] || op2 == seq!['-']))
            || ((op1 == seq!['*'] || op1 == seq!['/'] || op1 == seq!['%']) && (op2 == seq!['*'] || op2
            == seq!['/'] || op2 == seq!['%'])),
        tok(t, p) == Some(SpecToken::Identifier(x)),
        tok(t, p + 1) == Some(SpecToken::Operator(op1)),
        tok(t, p + 2) == Some(SpecToken::Identifier(y)),
        tok(t, p + 3) == Some(SpecToken::Operator(op2)),
        tok(t, p + 4) == Some(SpecToken::Identifier(z)),
        plain_end(t, p + 5),
    ensures
        spec_expression(t, p) == Ok::<(SpecExpr, nat), ParseError>((
            SpecExpr::BinaryOp {
                left: Box::new(
                    SpecExpr::BinaryOp {
                        left: Box::new(SpecExpr::Identifier(x)),
                        op: op1,
                        right: Box::new(SpecExpr::Identifier(y)),
                    },
                ),
                op: op2,
                right: Box::new(SpecExpr::Identifier(z)),
            },
            5,
        )),
{
    lemma_operator_levels();
    if op1 == seq!['+'] || op1 == seq!['-'] {
        lemma_same_level_groups_left(t, p, x, op1, y, op2, z, 1);
    } else {
        lemma_same_level_groups_left(t, p, x, op1, y, op2, z, 0);
    }
}

/// Assignment binds loosest: `x = y + z` (or `+=`, `-=`) assigns the whole
/// sum, whatever the names, when no operator follows.
pub proof fn lemma_assignment_takes_whole_right_side(
    t: Seq<SpecToken>,
    p: nat,
    x: Seq<char>,
    assign: Seq<char>,
    y: Seq<char>,
    add: Seq<char>,
    z: Seq<char>,
)
    requires
        assign == seq!['='] || assign == seq!['+', '='] || assign == seq!['-', '='],
        add == seq!['+'] || add == seq!['-'],
        tok(t, p) == Some(SpecToken::Identifier(x)),
        tok(t, p + 1) == Some(SpecToken::Operator(assign)),
        tok(t, p + 2) == Some(SpecToken::Identifier(y)),
        tok(t, p + 3) == Some(SpecToken::Operator(add)),
        tok(t, p + 4) == Some(SpecToken::Identifier(z)),
        plain_end(t, p + 5),
    ensures
        spec_expression(t, p) == Ok::<(SpecExpr, nat), ParseError>((
            SpecExpr::Assignment {
                target: Box::new(SpecExpr::Identifier(x)),
                op: assign,
                value: Box::new(
                    SpecExpr::BinaryOp {
                        left: Box::new(SpecExpr::Identifier(y)),
                        op: add,
                        right: Box::new(SpecExpr::Identifier(z)),
                    },
                ),
            },
            5,
        )),
{
    lemma_operator_levels();
    assert(seq!['='].len() == 1 && seq!['+', '='].len() == 2 && seq!['-', '='].len() == 2);
    assert(seq!['='][0] == '=' && seq!['+', '='][0] == '+' && seq!['-', '='][0] == '-');
    assert(seq!['<', '='][0] == '<' && seq!['>', '='][0] == '>' && seq!['=', '='][0] == '=');
    assert(seq!['!', '='][0] == '!' && seq!['&', '&'][0] == '&' && seq!['+', '+'][0] == '+');
    assert(seq!['-', '-'][0] == '-' && seq!['=', '='][1] == '=' && seq!['+', '+'][1] == '+');
    assert(seq!['-', '-'][1] == '-' && seq!['+', '='][1] == '=' && seq!['-', '='][1] == '=');
    assert(seq!['*'][0] == '*' && seq!['/'][0] == '/' && seq!['%'][0] == '%' && seq!['+'][0] == '+');
    assert(seq!['-'][0] == '-' && seq!['<'][0] == '<' && seq!['>'][0] == '>');
    assert(forall|k: nat| k <= 4 ==> !#[trigger] level_op(k, assign));
    assert(!postfix_op(assign));
    lemma_single(t, p, x, 4);
    lemma_pair(t, p + 2, y, add, z, 1, 4);
    lemma_lift_to_top(t, p + 2, 4, SpecExpr::BinaryOp {
        left: Box::new(SpecExpr::Identifier(y)),
        op: add,
        right: Box::new(SpecExpr::Identifier(z)),
    }, 3);
    lemma_unfold_expression(t, p);
}

} // verus!
