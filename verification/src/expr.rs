//! Expression graphs and their row-at-a-time evaluation.

use crate::graph::Graph;
use crate::includes::{ColId, QunId};
use crate::row::{DataType, Datum, DatumView, Row};
use vstd::prelude::*;

verus! {

/// Comparison operators.
#[derive(Debug, Clone, Copy, PartialEq, Eq, Structural, Hash)]
pub enum RelOp {
    Eq,
    Ne,
    Lt,
    Le,
    Gt,
    Ge,
}

/// Arithmetic operators on integers.
#[derive(Debug, Clone, Copy, PartialEq, Eq, Structural, Hash)]
pub enum ArithOp {
    Add,
    Sub,
    Mul,
    Div,
}

/// Logical operators. `Not` takes one operand, the others two.
#[derive(Debug, Clone, Copy, PartialEq, Eq, Structural, Hash)]
pub enum LogOp {
    And,
    Or,
    Not,
}

/// Aggregate functions.
#[derive(Debug, Clone, Copy, PartialEq, Eq, Structural, Hash)]
pub enum AggType {
    COUNT,
    SUM,
    MIN,
    MAX,
    AVG,
}

/// A node of an expression graph. Operands are the node's children, in order.
#[derive(Debug, PartialEq, Eq)]
pub enum Expr {
    /// A column of a query unit, named by its position in the base table.
    CID(QunId, ColId),
    /// A column resolved to position `offset` of the rows it is evaluated on.
    Column { qun_id: QunId, col_id: ColId, offset: usize },
    Literal(Datum),
    RelExpr(RelOp),
    BinaryExpr(ArithOp),
    LogExpr(LogOp),
    /// An aggregate over the single child; the flag asks for distinct inputs.
    AggFunction(AggType, bool),
}

/// What is known of an expression node besides its shape.
#[derive(Debug, Clone, Copy, PartialEq, Eq, Structural)]
pub struct ExprProp {
    /// Declared type. For a column reference it is the type of the column.
    pub data_type: DataType,
}

pub type ExprGraph = Graph<Expr, ExprProp>;

/// Key of a node in an expression graph.
#[derive(Debug, Clone, Copy, PartialEq, Eq, Structural, Hash)]
pub struct ExprKey {
    pub id: usize,
}

/// Integer division that rounds toward zero, as the machine divides.
pub open spec fn trunc_div(x: int, d: int) -> int {
    if x == 0 {
        0
    } else if x > 0 && d > 0 {
        x / d
    } else if x < 0 && d < 0 {
        (x * -1) / (d * -1)
    } else if x < 0 {
        ((x * -1) / d) * -1
    } else {
        (x / (d * -1)) * -1
    }
}

/// Whether a number fits in 64 bits with sign.
pub open spec fn fits_i64(v: int) -> bool {
    i64::MIN <= v <= i64::MAX
}

/// Result of a comparison. Integers compare under all six operators, strings
/// under `Eq` and `Ne`; any other pair of operands has no result.
pub open spec fn rel_result(op: RelOp, a: DatumView, b: DatumView) -> Option<bool> {
    match (a, b) {
        (DatumView::Int(x), DatumView::Int(y)) => Some(
            match op {
                RelOp::Eq => x == y,
                RelOp::Ne => x != y,
                RelOp::Lt => x < y,
                RelOp::Le => x <= y,
                RelOp::Gt => x > y,
                RelOp::Ge => x >= y,
            },
        ),
        (DatumView::Str(s), DatumView::Str(t)) => match op {
            RelOp::Eq => Some(s == t),
            RelOp::Ne => Some(s != t),
            _ => None,
        },
        _ => None,
    }
}

/// Result of integer arithmetic. There is none when an operand is not an
/// integer, when the divisor is zero, or when the exact result does not fit
/// in 64 bits.
pub open spec fn arith_result(op: ArithOp, a: DatumView, b: DatumView) -> Option<int> {
    match (a, b) {
        (DatumView::Int(x), DatumView::Int(y)) => {
            let exact = match op {
                ArithOp::Add => x + y,
                ArithOp::Sub => x - y,
                ArithOp::Mul => x * y,
                ArithOp::Div => trunc_div(x, y),
            };
            if (op == ArithOp::Div && y == 0) || !fits_i64(exact) {
                None
            } else {
                Some(exact)
            }
        },
        _ => None,
    }
}

/// Result of a logical operator. `Not` ignores its second operand.
pub open spec fn log_result(op: LogOp, a: DatumView, b: DatumView) -> Option<bool> {
    match (a, op, b) {
        (DatumView::Bool(x), LogOp::And, DatumView::Bool(y)) => Some(x && y),
        (DatumView::Bool(x), LogOp::Or, DatumView::Bool(y)) => Some(x || y),
        (DatumView::Bool(x), LogOp::Not, _) => Some(!x),
        _ => None,
    }
}


/// Compares two scalars.
pub fn rel_apply(op: RelOp, a: &Datum, b: &Datum) -> (r: Option<bool>)
    ensures
        r == rel_result(op, a@, b@),
{
    match (a, b) {
        (Datum::INT(x), Datum::INT(y)) => Some(
            match op {
                RelOp::Eq => *x == *y,
                RelOp::Ne => *x != *y,
                RelOp::Lt => *x < *y,
                RelOp::Le => *x <= *y,
                RelOp::Gt => *x > *y,
                RelOp::Ge => *x >= *y,
            },
        ),
        (Datum::STR(s), Datum::STR(t)) => match op {
            RelOp::Eq => Some(*s == *t),
            RelOp::Ne => Some(!(*s == *t)),
            _ => None,
        },
        _ => None,
    }
}

/// Integer arithmetic on two scalars, checked.
pub fn arith_apply(op: ArithOp, a: &Datum, b: &Datum) -> (r: Option<i64>)
    ensures
        r is Some <==> arith_result(op, a@, b@) is Some,
        r is Some ==> r.unwrap() == arith_result(op, a@, b@).unwrap(),
{
    match (a, b) {
        (Datum::INT(x), Datum::INT(y)) => match op {
            ArithOp::Add => x.checked_add(*y),
            ArithOp::Sub => x.checked_sub(*y),
            ArithOp::Mul => x.checked_mul(*y),
            ArithOp::Div => x.checked_div(*y),
        },
        _ => None,
    }
}

/// A logical operator on two scalars.
pub fn log_apply(op: LogOp, a: &Datum, b: &Datum) -> (r: Option<bool>)
    ensures
        r == log_result(op, a@, b@),
{
    match a {
        Datum::BOOL(x) => match op {
            LogOp::Not => Some(!*x),
            LogOp::And => match b {
                Datum::BOOL(y) => Some(*x && *y),
                _ => None,
            },
            LogOp::Or => match b {
                Datum::BOOL(y) => Some(*x || *y),
                _ => None,
            },
        },
        _ => None,
    }
}

/// The `j`-th operand of node `key`, present only where the node lists it and
/// it was added before the node.
pub open spec fn operand(graph: &ExprGraph, key: usize, j: int) -> Option<usize> {
    let children = graph.children_of(key);
    if graph.nodes@[key as int].children is Some && 0 <= j < children.len() && children[j] < key {
        Some(children[j])
    } else {
        None
    }
}

/// The value of expression `key` on `row`, or `None` where the expression has
/// no value: a column beyond the row, operands of the wrong type or number, a
/// division by zero, a result outside 64 bits, an aggregate function.
///
/// `CID(_, c)` reads position `c` of the row, `Column { offset, .. }` reads
/// position `offset`. Both operands of an operator must have a value; a
/// logical operator with a single operand sees NULL as its second.
pub open spec fn spec_eval(graph: &ExprGraph, key: usize, row: Seq<DatumView>) -> Option<DatumView>
    decreases key,
{
    if !graph.has(key) {
        None
    } else {
        match graph.value_of(key) {
            Expr::CID(_, col) => if col < row.len() {
                Some(row[col as int])
            } else {
                None
            },
            Expr::Column { offset, .. } => if offset < row.len() {
                Some(row[offset as int])
            } else {
                None
            },
            Expr::Literal(d) => Some(d@),
            Expr::RelExpr(op) => match (operand(graph, key, 0), operand(graph, key, 1)) {
                (Some(c0), Some(c1)) => match (spec_eval(graph, c0, row), spec_eval(graph, c1, row)) {
                    (Some(a), Some(b)) => match rel_result(op, a, b) {
                        Some(v) => Some(DatumView::Bool(v)),
                        None => None,
                    },
                    _ => None,
                },
                _ => None,
            },
            Expr::BinaryExpr(op) => match (operand(graph, key, 0), operand(graph, key, 1)) {
                (Some(c0), Some(c1)) => match (spec_eval(graph, c0, row), spec_eval(graph, c1, row)) {
                    (Some(a), Some(b)) => match arith_result(op, a, b) {
                        Some(v) => Some(DatumView::Int(v)),
                        None => None,
                    },
                    _ => None,
                },
                _ => None,
            },
            Expr::LogExpr(op) => match operand(graph, key, 0) {
                Some(c0) => match spec_eval(graph, c0, row) {
                    Some(a) => {
                        let second = if graph.children_of(key).len() == 2 {
                            match operand(graph, key, 1) {
                                Some(c1) => spec_eval(graph, c1, row),
                                None => None,
                            }
                        } else {
                            Some(DatumView::Null)
                        };
                        match second {
                            Some(b) => match log_result(op, a, b) {
                                Some(v) => Some(DatumView::Bool(v)),
                                None => None,
                            },
                            None => None,
                        }
                    },
                    None => None,
                },
                None => None,
            },
            Expr::AggFunction(_, _) => None,
        }
    }
}

impl Expr {
    /// Evaluates expression `expr_id` on `row`, where it has a value.
    pub fn try_eval(graph: &ExprGraph, expr_id: ExprKey, row: &Row) -> (res: Option<Datum>)
        requires
            graph.wf(),
        ensures
            match res {
                Some(d) => spec_eval(graph, expr_id.id, row@) == Some(d@),
                None => spec_eval(graph, expr_id.id, row@) is None,
            },
        decreases expr_id.id,
    {
        let key = expr_id.id;
        if key >= graph.len() {
            return None;
        }
        let (expr, _, children) = graph.get3(key);
        match expr {
            Expr::CID(_, col) => {
                if *col < row.len() {
                    Some(row.get_column(*col).clone())
                } else {
                    None
                }
            },
            Expr::Column { qun_id: _, col_id: _, offset } => {
                if *offset < row.len() {
                    Some(row.get_column(*offset).clone())
                } else {
                    None
                }
            },
            Expr::Literal(d) => Some(d.clone()),
            Expr::RelExpr(op) => {
                let (c0, c1) = match Self::two_operands(graph, key, children) {
                    Some(pair) => pair,
                    None => { return None; },
                };
                let a = match Self::try_eval(graph, ExprKey { id: c0 }, row) {
                    Some(a) => a,
                    None => { return None; },
                };
                let b = match Self::try_eval(graph, ExprKey { id: c1 }, row) {
                    Some(b) => b,
                    None => { return None; },
                };
                match rel_apply(*op, &a, &b) {
                    Some(v) => Some(Datum::BOOL(v)),
                    None => None,
                }
            },
            Expr::BinaryExpr(op) => {
                let (c0, c1) = match Self::two_operands(graph, key, children) {
                    Some(pair) => pair,
                    None => { return None; },
                };
                let a = match Self::try_eval(graph, ExprKey { id: c0 }, row) {
                    Some(a) => a,
                    None => { return None; },
                };
                let b = match Self::try_eval(graph, ExprKey { id: c1 }, row) {
                    Some(b) => b,
                    None => { return None; },
                };
                match arith_apply(*op, &a, &b) {
                    Some(v) => Some(Datum::INT(v)),
                    None => None,
                }
            },
            Expr::LogExpr(op) => {
                let children = match children {
                    Some(c) => c,
                    None => { return None; },
                };
                if children.len() < 1 {
                    return None;
                }
                let c0 = children[0];
                proof {
                    assert(graph.nodes@[key as int].child_keys()[0] < key);
                }
                let a = match Self::try_eval(graph, ExprKey { id: c0 }, row) {
                    Some(a) => a,
                    None => { return None; },
                };
                let b = if children.len() == 2 {
                    let c1 = children[1];
                    proof {
                        assert(graph.nodes@[key as int].child_keys()[1] < key);
                    }
                    match Self::try_eval(graph, ExprKey { id: c1 }, row) {
                        Some(b) => b,
                        None => { return None; },
                    }
                } else {
                    Datum::NULL
                };
                match log_apply(*op, &a, &b) {
                    Some(v) => Some(Datum::BOOL(v)),
                    None => None,
                }
            },
            Expr::AggFunction(_, _) => None,
        }
    }

    /// The first two operands of node `key`, where it has them.
    fn two_operands(graph: &ExprGraph, key: usize, children: Option<&Vec<usize>>) -> (res: Option<(usize, usize)>)
        requires
            graph.wf(),
            graph.has(key),
            match children {
                Some(c) => graph.nodes@[key as int].children == Some(*c),
                None => graph.nodes@[key as int].children is None,
            },
        ensures
            match res {
                Some((c0, c1)) => operand(graph, key, 0) == Some(c0) && operand(graph, key, 1) == Some(c1) && c0 < key
                    && c1 < key,
                None => operand(graph, key, 0) is None || operand(graph, key, 1) is None,
            },
    {
        match children {
            Some(c) => {
                if c.len() >= 2 {
                    proof {
                        assert(graph.nodes@[key as int].child_keys()[0] < key);
                        assert(graph.nodes@[key as int].child_keys()[1] < key);
                    }
                    Some((c[0], c[1]))
                } else {
                    None
                }
            },
            None => None,
        }
    }

    /// Evaluates expression `expr_id` on `row`. The expression must have a
    /// value on that row.
    pub fn eval(graph: &ExprGraph, expr_id: ExprKey, row: &Row) -> (d: Datum)
        requires
            graph.wf(),
            spec_eval(graph, expr_id.id, row@) is Some,
        ensures
            spec_eval(graph, expr_id.id, row@) == Some(d@),
    {
        Self::try_eval(graph, expr_id, row).unwrap()
    }
}

} // verus!
