//! Constant folding of expressions.
use vstd::prelude::*;
use crate::parser::Expression;
use crate::text::{to_chars, str_eq, unicode_upper, upper_chars};
use crate::numeric::{parse_i64, parse_i64_spec};

verus! {

/// The static value of an expression, when it has one.
#[derive(Debug, PartialEq, Eq, Structural, Clone, Copy)]
pub enum EvalValue {
    Number(i64),
    Boolean(bool),
    Unknown,
}

/// Integer division rounding toward zero, as `/` on `i64` computes it.
pub open spec fn trunc_div(x: int, d: int) -> int {
    if x == 0 {
        0
    } else if x > 0 && d > 0 {
        x / d
    } else if x < 0 && d < 0 {
        (-x) / (-d)
    } else if x < 0 {
        -((-x) / d)
    } else {
        -(x / (-d))
    }
}

/// The exact integer result of an arithmetic operator, or `None` for any other operator
/// and for a division by zero.
pub open spec fn arith(a: int, op: Seq<char>, b: int) -> Option<int> {
    if op == "+"@ {
        Some(a + b)
    } else if op == "-"@ {
        Some(a - b)
    } else if op == "*"@ {
        Some(a * b)
    } else if op == "/"@ {
        if b == 0 { None } else { Some(trunc_div(a, b)) }
    } else {
        None
    }
}

/// The value of a comparison operator, or `None` for any other operator.
pub open spec fn compare(a: i64, op: Seq<char>, b: i64) -> Option<bool> {
    if op == "="@ {
        Some(a == b)
    } else if op == "!="@ {
        Some(a != b)
    } else if op == ">"@ {
        Some(a > b)
    } else if op == "<"@ {
        Some(a < b)
    } else if op == ">="@ {
        Some(a >= b)
    } else if op == "<="@ {
        Some(a <= b)
    } else {
        None
    }
}

/// How a binary operator combines two folded operands.
pub open spec fn combine(l: EvalValue, op: Seq<char>, r: EvalValue) -> EvalValue {
    match (l, r) {
        (EvalValue::Number(a), EvalValue::Number(b)) => {
            if op == "+"@ || op == "-"@ || op == "*"@ || op == "/"@ {
                match arith(a as int, op, b as int) {
                    Some(v) => EvalValue::Number(v as i64),
                    None => EvalValue::Unknown,
                }
            } else {
                match compare(a, op, b) {
                    Some(t) => EvalValue::Boolean(t),
                    None => EvalValue::Unknown,
                }
            }
        },
        (EvalValue::Boolean(a), EvalValue::Boolean(b)) => {
            let u = unicode_upper(op);
            if u == "AND"@ {
                EvalValue::Boolean(a && b)
            } else if u == "OR"@ {
                EvalValue::Boolean(a || b)
            } else {
                EvalValue::Unknown
            }
        },
        _ => EvalValue::Unknown,
    }
}

/// The folded value of an expression: literals that read as an `i64` are numbers, columns
/// are unknown, and operators combine the values of both operands.
pub open spec fn eval(e: Expression) -> EvalValue
    decreases e,
{
    match e {
        Expression::Number(n) => match parse_i64_spec(n@) {
            Some(v) => EvalValue::Number(v),
            None => EvalValue::Unknown,
        },
        Expression::Column(_) => EvalValue::Unknown,
        Expression::BinaryOp { left, operator, right } => combine(
            eval(*left),
            operator@,
            eval(*right),
        ),
    }
}

/// The operator applied to two numbers has an `i64` result (or is not arithmetic).
pub open spec fn step_fits(l: EvalValue, op: Seq<char>, r: EvalValue) -> bool {
    match (l, r) {
        (EvalValue::Number(a), EvalValue::Number(b)) => match arith(a as int, op, b as int) {
            Some(v) => i64::MIN <= v <= i64::MAX,
            None => true,
        },
        _ => true,
    }
}

/// Folding the expression never leaves the range of `i64`: on such an expression the
/// folding arithmetic cannot overflow.
pub open spec fn fits_i64(e: Expression) -> bool
    decreases e,
{
    match e {
        Expression::BinaryOp { left, operator, right } => fits_i64(*left) && fits_i64(*right)
            && step_fits(eval(*left), operator@, eval(*right)),
        _ => true,
    }
}

fn op_is(op: &String, lit: &str) -> (r: bool)
    ensures
        r == (op@ == lit@),
{
    str_eq(op.as_str(), lit)
}

/// Statically evaluates an expression (constant folding).
pub fn evaluate_expression(expr: &Expression) -> (r: EvalValue)
    requires
        fits_i64(*expr),
    ensures
        r == eval(*expr),
    decreases expr,
{
    match expr {
        Expression::Number(n) => {
            let cs = to_chars(n.as_str());
            match parse_i64(cs.as_slice()) {
                Some(val) => EvalValue::Number(val),
                None => EvalValue::Unknown,
            }
        },
        Expression::Column(_) => EvalValue::Unknown,
        Expression::BinaryOp { left, operator, right } => {
            let l_val = evaluate_expression(left);
            let r_val = evaluate_expression(right);
            match (l_val, r_val) {
                (EvalValue::Number(l), EvalValue::Number(r)) => {
                    if op_is(operator, "+") {
                        EvalValue::Number(l + r)
                    } else if op_is(operator, "-") {
                        EvalValue::Number(l - r)
                    } else if op_is(operator, "*") {
                        EvalValue::Number(l * r)
                    } else if op_is(operator, "/") {
                        if r == 0 {
                            EvalValue::Unknown
                        } else {
                            match l.checked_div(r) {
                                Some(q) => EvalValue::Number(q),
                                None => EvalValue::Unknown,
                            }
                        }
                    } else if op_is(operator, "=") {
                        EvalValue::Boolean(l == r)
                    } else if op_is(operator, "!=") {
                        EvalValue::Boolean(l != r)
                    } else if op_is(operator, ">") {
                        EvalValue::Boolean(l > r)
                    } else if op_is(operator, "<") {
                        EvalValue::Boolean(l < r)
                    } else if op_is(operator, ">=") {
                        EvalValue::Boolean(l >= r)
                    } else if op_is(operator, "<=") {
                        EvalValue::Boolean(l <= r)
                    } else {
                        EvalValue::Unknown
                    }
                },
                (EvalValue::Boolean(l), EvalValue::Boolean(r)) => {
                    let ops = to_chars(operator.as_str());
                    let u = upper_chars(ops.as_slice());
                    let and_lit = to_chars("AND");
                    let or_lit = to_chars("OR");
                    if crate::text::chars_eq(u.as_slice(), and_lit.as_slice()) {
                        EvalValue::Boolean(l && r)
                    } else if crate::text::chars_eq(u.as_slice(), or_lit.as_slice()) {
                        EvalValue::Boolean(l || r)
                    } else {
                        EvalValue::Unknown
                    }
                },
                _ => EvalValue::Unknown,
            }
        },
    }
}

/// Whether folding the expression stays within `i64` (so that `evaluate_expression` may be
/// called on it).
pub fn folds_within_i64(expr: &Expression) -> (r: bool)
    ensures
        r == fits_i64(*expr),
    decreases expr,
{
    match expr {
        Expression::BinaryOp { left, operator, right } => {
            if !folds_within_i64(left) || !folds_within_i64(right) {
                return false;
            }
            let l_val = evaluate_expression(left);
            let r_val = evaluate_expression(right);
            match (l_val, r_val) {
                (EvalValue::Number(l), EvalValue::Number(r)) => {
                    let lw = l as i128;
                    let rw = r as i128;
                    let v: i128 = if op_is(operator, "+") {
                        lw + rw
                    } else if op_is(operator, "-") {
                        lw - rw
                    } else if op_is(operator, "*") {
                        assert(-0x4000_0000_0000_0000_0000_0000_0000_0000 <= lw * rw <= 0x4000_0000_0000_0000_0000_0000_0000_0000) by (nonlinear_arith)
                            requires
                                -0x8000_0000_0000_0000 <= lw <= 0x7fff_ffff_ffff_ffff,
                                -0x8000_0000_0000_0000 <= rw <= 0x7fff_ffff_ffff_ffff,
                        ;
                        lw * rw
                    } else if op_is(operator, "/") {
                        if r == 0 {
                            0
                        } else if l == i64::MIN && r == -1 {
                            -(i64::MIN as i128)
                        } else {
                            0
                        }
                    } else {
                        0
                    };
                    proof {
                        if op_is_div(operator@) && r != 0 && !(l == i64::MIN && r == -1) {
                            lemma_trunc_div_fits(l as int, r as int);
                        }
                    }
                    i64::MIN as i128 <= v && v <= i64::MAX as i128
                },
                _ => true,
            }
        },
        _ => true,
    }
}

spec fn op_is_div(op: Seq<char>) -> bool {
    op == "/"@ && op != "+"@ && op != "-"@ && op != "*"@
}

proof fn lemma_trunc_div_fits(x: int, d: int)
    requires
        i64::MIN <= x <= i64::MAX,
        i64::MIN <= d <= i64::MAX,
        d != 0,
        !(x == i64::MIN && d == -1),
    ensures
        i64::MIN <= trunc_div(x, d) <= i64::MAX,
{
    if x > 0 && d > 0 {
        assert(x / d <= x) by (nonlinear_arith)
            requires
                x > 0,
                d > 0,
        ;
    } else if x < 0 && d < 0 {
        assert((-x) / (-d) <= -x) by (nonlinear_arith)
            requires
                x < 0,
                d < 0,
        ;
        if x == i64::MIN {
            assert((-x) / (-d) < -x) by (nonlinear_arith)
                requires
                    x < 0,
                    d < -1,
            ;
        }
    } else if x < 0 {
        assert((-x) / d <= -x) by (nonlinear_arith)
            requires
                x < 0,
                d > 0,
        ;
        assert((-x) / d >= 0) by (nonlinear_arith)
            requires
                x < 0,
                d > 0,
        ;
    } else if x > 0 {
        assert(x / (-d) <= x) by (nonlinear_arith)
            requires
                x > 0,
                d < 0,
        ;
        assert(x / (-d) >= 0) by (nonlinear_arith)
            requires
                x > 0,
                d < 0,
        ;
    }
}

} // verus!
