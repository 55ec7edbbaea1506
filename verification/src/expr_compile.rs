//! Compilation of expression graphs into PCode.

use crate::expr::{operand, spec_eval, Expr, ExprGraph, ExprKey, LogOp, RelOp};
use crate::includes::{ColId, QunCol};
use crate::pcode::{depth, lemma_run_concat, run, run_row, well_formed, PCode, PInstruction};
use crate::pop::{Projection, ProjectionMap};
use crate::row::{DataType, DatumView};
use vstd::prelude::*;

verus! {

/// Why an expression cannot be compiled.
#[derive(Debug, Clone, Copy, PartialEq, Eq, Structural)]
pub enum CompileFault {
    /// A node lacks an operand, or names one that is not in the graph.
    Malformed,
    /// The projection map holds no position for a column.
    Unresolved,
    /// The operands of an operator have types that it does not take.
    TypeMismatch,
    /// An aggregate function stands where a scalar expression is expected.
    Unsupported,
    /// A query unit has no table in the catalog.
    UnknownTable,
    /// A shuffle is asked for without hash keys, or for no partitions.
    InvalidPartition,
    /// A logical operator lacks an input, or is not of the kind expected.
    MalformedPlan,
    /// The lowering of table scans was handed an operator of another kind.
    NotATableScan,
    /// The columns of an operator are too many to be numbered.
    TooWide,
}

impl CompileFault {
    /// The text that reports this fault.
    pub open spec fn text(self) -> Seq<char> {
        match self {
            CompileFault::Malformed => "Compile error: malformed expression"@,
            CompileFault::Unresolved => "Compile error: column cannot be resolved"@,
            CompileFault::TypeMismatch => "Compile error: type mismatch"@,
            CompileFault::Unsupported => "Compile error: aggregate function in a scalar expression"@,
            CompileFault::UnknownTable => "Compile error: unknown table"@,
            CompileFault::InvalidPartition => "Compile error: invalid partitioning type"@,
            CompileFault::MalformedPlan => "Compile error: malformed logical plan"@,
            CompileFault::NotATableScan => "Internal error: compile_scan() received a POP that isn't a TableScan"@,
            CompileFault::TooWide => "Compile error: too many columns"@,
        }
    }

    /// The text that reports this fault.
    pub fn message(&self) -> (s: String)
        ensures
            s@ == self.text(),
    {
        match self {
            CompileFault::Malformed => String::from_str("Compile error: malformed expression"),
            CompileFault::Unresolved => String::from_str("Compile error: column cannot be resolved"),
            CompileFault::TypeMismatch => String::from_str("Compile error: type mismatch"),
            CompileFault::Unsupported => String::from_str("Compile error: aggregate function in a scalar expression"),
            CompileFault::UnknownTable => String::from_str("Compile error: unknown table"),
            CompileFault::InvalidPartition => String::from_str("Compile error: invalid partitioning type"),
            CompileFault::MalformedPlan => String::from_str("Compile error: malformed logical plan"),
            CompileFault::NotATableScan => String::from_str(
                "Internal error: compile_scan() received a POP that isn't a TableScan",
            ),
            CompileFault::TooWide => String::from_str("Compile error: too many columns"),
        }
    }
}

/// What compiling a node gives: its instructions and the type of its value.
pub type Compiled = Result<(Seq<PInstruction>, DataType), CompileFault>;

/// The type of what `inst` pushes for operands of types `t0` and `t1` (`t0`
/// alone for a one-operand instruction), or `None` where the instruction
/// does not take such operands.
///
/// Integers compare under every operator, strings under `Eq` and `Ne`;
/// arithmetic takes integers; `And` and `Or` take booleans, and `Not` a
/// boolean first operand.
pub open spec fn result_type(inst: PInstruction, t0: DataType, t1: DataType) -> Option<DataType> {
    match inst {
        PInstruction::Compare(op) => if (t0 == DataType::INT && t1 == DataType::INT) || (t0 == DataType::STR && t1
            == DataType::STR && (op == RelOp::Eq || op == RelOp::Ne)) {
            Some(DataType::BOOL)
        } else {
            None
        },
        PInstruction::Arith(_) => if t0 == DataType::INT && t1 == DataType::INT {
            Some(DataType::INT)
        } else {
            None
        },
        PInstruction::Log(op) => if t0 == DataType::BOOL && (op == LogOp::Not || t1 == DataType::BOOL) {
            Some(DataType::BOOL)
        } else {
            None
        },
        PInstruction::Neg => if t0 == DataType::INT {
            Some(DataType::INT)
        } else {
            None
        },
        PInstruction::Not => if t0 == DataType::BOOL {
            Some(DataType::BOOL)
        } else {
            None
        },
        _ => None,
    }
}

/// Code for a column reference of declared type `t`.
pub open spec fn column_code(proj: Map<Projection, ColId>, quncol: QunCol, t: DataType) -> Compiled {
    if proj.contains_key(Projection::QunCol(quncol)) {
        Ok((seq![PInstruction::PushColumn(proj[Projection::QunCol(quncol)])], t))
    } else {
        Err(CompileFault::Unresolved)
    }
}

/// Code for a two-operand node: the operands left to right, then `inst`. The
/// fault of the left operand comes before that of the right one, and both
/// before a type mismatch.
pub open spec fn join2(left: Compiled, right: Compiled, inst: PInstruction) -> Compiled {
    match left {
        Err(f) => Err(f),
        Ok((code0, t0)) => match right {
            Err(f) => Err(f),
            Ok((code1, t1)) => match result_type(inst, t0, t1) {
                Some(t) => Ok((code0 + code1 + seq![inst], t)),
                None => Err(CompileFault::TypeMismatch),
            },
        },
    }
}

/// Code for a one-operand node: the operand, then `inst`.
pub open spec fn join1(left: Compiled, inst: PInstruction) -> Compiled {
    match left {
        Err(f) => Err(f),
        Ok((code0, t0)) => match result_type(inst, t0, t0) {
            Some(t) => Ok((code0 + seq![inst], t)),
            None => Err(CompileFault::TypeMismatch),
        },
    }
}

/// The program for expression `key`: a post-order walk that resolves column
/// references through `proj`, and the static type of the expression.
pub open spec fn spec_compile(graph: &ExprGraph, key: usize, proj: Map<Projection, ColId>) -> Compiled
    decreases key,
{
    if !graph.has(key) {
        Err(CompileFault::Malformed)
    } else {
        match graph.value_of(key) {
            Expr::CID(q, c) => column_code(proj, QunCol(q, c), graph.props_of(key).data_type),
            Expr::Column { qun_id, col_id, .. } => column_code(
                proj,
                QunCol(qun_id, col_id),
                graph.props_of(key).data_type,
            ),
            Expr::Literal(d) => Ok((seq![PInstruction::PushLit(d)], d@.data_type())),
            Expr::RelExpr(op) => match (operand(graph, key, 0), operand(graph, key, 1)) {
                (Some(c0), Some(c1)) => join2(
                    spec_compile(graph, c0, proj),
                    spec_compile(graph, c1, proj),
                    PInstruction::Compare(op),
                ),
                _ => Err(CompileFault::Malformed),
            },
            Expr::BinaryExpr(op) => match (operand(graph, key, 0), operand(graph, key, 1)) {
                (Some(c0), Some(c1)) => join2(
                    spec_compile(graph, c0, proj),
                    spec_compile(graph, c1, proj),
                    PInstruction::Arith(op),
                ),
                _ => Err(CompileFault::Malformed),
            },
            Expr::LogExpr(op) => if graph.children_of(key).len() == 2 {
                match (operand(graph, key, 0), operand(graph, key, 1)) {
                    (Some(c0), Some(c1)) => join2(
                        spec_compile(graph, c0, proj),
                        spec_compile(graph, c1, proj),
                        PInstruction::Log(op),
                    ),
                    _ => Err(CompileFault::Malformed),
                }
            } else if graph.children_of(key).len() == 1 && op == LogOp::Not {
                match operand(graph, key, 0) {
                    Some(c0) => join1(spec_compile(graph, c0, proj), PInstruction::Not),
                    None => Err(CompileFault::Malformed),
                }
            } else {
                Err(CompileFault::Malformed)
            },
            Expr::AggFunction(_, _) => Err(CompileFault::Unsupported),
        }
    }
}

/// Appends the code for node `key` to `pcode` and returns its static type.
fn compile_node(graph: &ExprGraph, key: usize, proj_map: &ProjectionMap, pcode: &mut PCode) -> (res: Result<
    DataType,
    CompileFault,
>)
    requires
        graph.wf(),
    ensures
        match res {
            Ok(t) => spec_compile(graph, key, proj_map@) matches Ok((code, ty)) && ty == t && final(pcode)@ == old(pcode)@ + code,
            Err(f) => spec_compile(graph, key, proj_map@) == Err::<(Seq<PInstruction>, DataType), CompileFault>(f)
                && old(pcode)@.is_prefix_of(final(pcode)@),
        },
    decreases key,
{
    if key >= graph.len() {
        return Err(CompileFault::Malformed);
    }
    let (expr, props, children) = graph.get3(key);
    match expr {
        Expr::CID(q, c) => compile_column(proj_map, QunCol(*q, *c), props.data_type, pcode),
        Expr::Column { qun_id, col_id, offset: _ } => compile_column(
            proj_map,
            QunCol(*qun_id, *col_id),
            props.data_type,
            pcode,
        ),
        Expr::Literal(d) => {
            pcode.push(PInstruction::PushLit(d.clone()));
            assert(pcode@ =~= old(pcode)@ + seq![PInstruction::PushLit(*d)]);
            Ok(d.data_type())
        },
        Expr::RelExpr(op) => compile_binary(graph, key, children, proj_map, pcode, PInstruction::Compare(*op)),
        Expr::BinaryExpr(op) => compile_binary(graph, key, children, proj_map, pcode, PInstruction::Arith(*op)),
        Expr::LogExpr(op) => {
            let nchildren = match children {
                Some(c) => c.len(),
                None => 0,
            };
            if nchildren == 2 {
                compile_binary(graph, key, children, proj_map, pcode, PInstruction::Log(*op))
            } else if nchildren == 1 && *op == LogOp::Not {
                let c0 = children.unwrap()[0];
                proof {
                    assert(graph.nodes@[key as int].child_keys()[0] < key);
                }
                let t0 = compile_node(graph, c0, proj_map, pcode)?;
                let inst = PInstruction::Not;
                match static_type(&inst, t0, t0) {
                    Some(t) => {
                        let ghost mid = pcode@;
                        pcode.push(inst);
                        proof {
                            let code0 = spec_compile(graph, c0, proj_map@).unwrap().0;
                            assert(pcode@ =~= old(pcode)@ + (code0 + seq![inst]));
                        }
                        Ok(t)
                    },
                    None => Err(CompileFault::TypeMismatch),
                }
            } else {
                Err(CompileFault::Malformed)
            }
        },
        Expr::AggFunction(_, _) => Err(CompileFault::Unsupported),
    }
}

/// Appends the code for a column reference.
fn compile_column(proj_map: &ProjectionMap, quncol: QunCol, t: DataType, pcode: &mut PCode) -> (res: Result<
    DataType,
    CompileFault,
>)
    ensures
        match res {
            Ok(ty) => column_code(proj_map@, quncol, t) matches Ok((code, t2)) && ty == t2 && final(pcode)@ == old(pcode)@ + code,
            Err(f) => column_code(proj_map@, quncol, t) == Err::<(Seq<PInstruction>, DataType), CompileFault>(f)
                && final(pcode)@ == old(pcode)@,
        },
{
    match proj_map.get(Projection::QunCol(quncol)) {
        Some(ix) => {
            pcode.push(PInstruction::PushColumn(ix));
            assert(pcode@ =~= old(pcode)@ + seq![PInstruction::PushColumn(ix)]);
            Ok(t)
        },
        None => Err(CompileFault::Unresolved),
    }
}

/// The type of what `inst` pushes for operands of types `t0` and `t1`.
fn static_type(inst: &PInstruction, t0: DataType, t1: DataType) -> (res: Option<DataType>)
    ensures
        res == result_type(*inst, t0, t1),
{
    match inst {
        PInstruction::Compare(op) => if (t0 == DataType::INT && t1 == DataType::INT) || (t0 == DataType::STR && t1
            == DataType::STR && (*op == RelOp::Eq || *op == RelOp::Ne)) {
            Some(DataType::BOOL)
        } else {
            None
        },
        PInstruction::Arith(_) => if t0 == DataType::INT && t1 == DataType::INT {
            Some(DataType::INT)
        } else {
            None
        },
        PInstruction::Log(op) => if t0 == DataType::BOOL && (*op == LogOp::Not || t1 == DataType::BOOL) {
            Some(DataType::BOOL)
        } else {
            None
        },
        PInstruction::Neg => if t0 == DataType::INT {
            Some(DataType::INT)
        } else {
            None
        },
        PInstruction::Not => if t0 == DataType::BOOL {
            Some(DataType::BOOL)
        } else {
            None
        },
        _ => None,
    }
}

/// Appends the code for a two-operand node.
fn compile_binary(
    graph: &ExprGraph,
    key: usize,
    children: Option<&Vec<usize>>,
    proj_map: &ProjectionMap,
    pcode: &mut PCode,
    inst: PInstruction,
) -> (res: Result<DataType, CompileFault>)
    requires
        graph.wf(),
        graph.has(key),
        match children {
            Some(c) => graph.nodes@[key as int].children == Some(*c),
            None => graph.nodes@[key as int].children is None,
        },
    ensures
        ({
            let spec = match (operand(graph, key, 0), operand(graph, key, 1)) {
                (Some(c0), Some(c1)) => join2(
                    spec_compile(graph, c0, proj_map@),
                    spec_compile(graph, c1, proj_map@),
                    inst,
                ),
                _ => Err(CompileFault::Malformed),
            };
            match res {
                Ok(t) => spec matches Ok((code, ty)) && ty == t && final(pcode)@ == old(pcode)@ + code,
                Err(f) => spec == Err::<(Seq<PInstruction>, DataType), CompileFault>(f) && old(pcode)@.is_prefix_of(
                    final(pcode)@,
                ),
            }
        }),
    decreases key, 0nat,
{
    let (c0, c1) = match children {
        Some(c) => {
            if c.len() >= 2 {
                proof {
                    assert(graph.nodes@[key as int].child_keys()[0] < key);
                    assert(graph.nodes@[key as int].child_keys()[1] < key);
                }
                (c[0], c[1])
            } else {
                return Err(CompileFault::Malformed);
            }
        },
        None => {
            return Err(CompileFault::Malformed);
        },
    };
    let t0 = compile_node(graph, c0, proj_map, pcode)?;
    let ghost mid = pcode@;
    let t1 = compile_node(graph, c1, proj_map, pcode)?;
    match static_type(&inst, t0, t1) {
        Some(t) => {
            pcode.push(inst);
            proof {
                let code0 = spec_compile(graph, c0, proj_map@).unwrap().0;
                let code1 = spec_compile(graph, c1, proj_map@).unwrap().0;
                assert(pcode@ =~= old(pcode)@ + (code0 + code1 + seq![inst]));
            }
            Ok(t)
        },
        None => Err(CompileFault::TypeMismatch),
    }
}

impl ExprKey {
    /// Appends to `pcode` the program that computes this expression from the
    /// columns that `proj_map` assigns to its column references. On a fault
    /// `pcode` is left as it was and the text of the fault is returned.
    pub fn compile(&self, expr_graph: &ExprGraph, pcode: &mut PCode, proj_map: &ProjectionMap) -> (res: Result<
        (),
        String,
    >)
        requires
            expr_graph.wf(),
        ensures
            match res {
                Ok(_) => spec_compile(expr_graph, self.id, proj_map@) matches Ok((code, _)) && final(pcode)@ == old(pcode)@ + code,
                Err(e) => spec_compile(expr_graph, self.id, proj_map@) matches Err(f) && e@ == f.text() && final(pcode)@ == old(pcode)@,
            },
    {
        let start = pcode.len();
        match compile_node(expr_graph, self.id, proj_map, pcode) {
            Ok(_) => Ok(()),
            Err(f) => {
                pcode.instructions.truncate(start);
                assert(pcode@ =~= old(pcode)@);
                Err(f.message())
            },
        }
    }
}

/// A column reference reads the same value from the row at `pos` as its
/// compiled form reads from the input row at the position the map assigns.
pub open spec fn leaf_agrees(
    proj: Map<Projection, ColId>,
    quncol: QunCol,
    pos: usize,
    input_row: Seq<DatumView>,
    row: Seq<DatumView>,
) -> bool {
    proj.contains_key(Projection::QunCol(quncol)) ==> {
        let ix = proj[Projection::QunCol(quncol)];
        ix < input_row.len() && pos < row.len() && input_row[ix as int] == row[pos as int]
    }
}

/// The input row conforms to the projection map for expression `key`: every
/// column reference under `key` finds in `input_row`, at the position that
/// `proj` assigns to it, the value that it has in `row`.
pub open spec fn columns_agree(
    graph: &ExprGraph,
    key: usize,
    proj: Map<Projection, ColId>,
    input_row: Seq<DatumView>,
    row: Seq<DatumView>,
) -> bool
    decreases key,
{
    if !graph.has(key) {
        true
    } else {
        match graph.value_of(key) {
            Expr::CID(q, c) => leaf_agrees(proj, QunCol(q, c), c, input_row, row),
            Expr::Column { qun_id, col_id, offset } => leaf_agrees(
                proj,
                QunCol(qun_id, col_id),
                offset,
                input_row,
                row,
            ),
            Expr::RelExpr(_) | Expr::BinaryExpr(_) | Expr::LogExpr(_) => {
                &&& operand(graph, key, 0) matches Some(c0) ==> columns_agree(graph, c0, proj, input_row, row)
                &&& operand(graph, key, 1) matches Some(c1) ==> columns_agree(graph, c1, proj, input_row, row)
            },
            _ => true,
        }
    }
}

/// Running a single instruction is taking one step.
proof fn lemma_run_one(inst: PInstruction, stack: Seq<DatumView>, row: Seq<DatumView>)
    ensures
        run(seq![inst], stack, row) == crate::pcode::step(inst, stack, row),
{
    assert(seq![inst].drop_last() =~= Seq::<PInstruction>::empty());
    assert(run(seq![inst].drop_last(), stack, row) == Some(stack));
}

/// Running the code of a two-operand node whose operands run as `a` and `b`.
proof fn lemma_run_join2(
    code0: Seq<PInstruction>,
    code1: Seq<PInstruction>,
    inst: PInstruction,
    stack: Seq<DatumView>,
    row: Seq<DatumView>,
    a: Option<DatumView>,
    b: Option<DatumView>,
)
    requires
        crate::pcode::arity(inst) == 2,
        run(code0, stack, row) == match a {
            Some(v) => Some(stack.push(v)),
            None => None,
        },
        a matches Some(v) ==> run(code1, stack.push(v), row) == match b {
            Some(w) => Some(stack.push(v).push(w)),
            None => None,
        },
    ensures
        run(code0 + code1 + seq![inst], stack, row) == match (a, b) {
            (Some(v), Some(w)) => match crate::pcode::binary_value(inst, v, w) {
                Some(r) => Some(stack.push(r)),
                None => None,
            },
            _ => None,
        },
{
    lemma_run_concat(code0 + code1, seq![inst], stack, row);
    lemma_run_concat(code0, code1, stack, row);
    match (a, b) {
        (Some(v), Some(w)) => {
            let s2 = stack.push(v).push(w);
            lemma_run_one(inst, s2, row);
            assert(crate::pcode::pushed(inst, s2, row) == crate::pcode::binary_value(inst, v, w));
            assert(s2.take(s2.len() - 2) =~= stack);
        },
        _ => {},
    }
}

/// Compiled code computes what the expression evaluates to: run from any
/// stack on a conforming input row, the program of expression `key` pushes
/// the value that the expression has on `row`, and fails where the
/// expression has none.
pub proof fn lemma_compile_correct(
    graph: &ExprGraph,
    key: usize,
    proj: Map<Projection, ColId>,
    input_row: Seq<DatumView>,
    row: Seq<DatumView>,
    stack: Seq<DatumView>,
)
    requires
        graph.wf(),
        spec_compile(graph, key, proj) is Ok,
        columns_agree(graph, key, proj, input_row, row),
    ensures
        run(spec_compile(graph, key, proj).unwrap().0, stack, input_row) == match spec_eval(graph, key, row) {
            Some(v) => Some(stack.push(v)),
            None => None,
        },
    decreases key,
{
    let code = spec_compile(graph, key, proj).unwrap().0;
    match graph.value_of(key) {
        Expr::CID(q, c) => {
            lemma_run_one(code[0], stack, input_row);
            assert(code =~= seq![code[0]]);
            assert(stack.take(stack.len() as int) =~= stack);
        },
        Expr::Column { qun_id, col_id, offset } => {
            lemma_run_one(code[0], stack, input_row);
            assert(code =~= seq![code[0]]);
            assert(stack.take(stack.len() as int) =~= stack);
        },
        Expr::Literal(d) => {
            lemma_run_one(code[0], stack, input_row);
            assert(code =~= seq![code[0]]);
            assert(stack.take(stack.len() as int) =~= stack);
        },
        Expr::RelExpr(op) => {
            let c0 = operand(graph, key, 0).unwrap();
            let c1 = operand(graph, key, 1).unwrap();
            lemma_compile_correct(graph, c0, proj, input_row, row, stack);
            let a = spec_eval(graph, c0, row);
            if a is Some {
                lemma_compile_correct(graph, c1, proj, input_row, row, stack.push(a.unwrap()));
            }
            lemma_run_join2(
                spec_compile(graph, c0, proj).unwrap().0,
                spec_compile(graph, c1, proj).unwrap().0,
                PInstruction::Compare(op),
                stack,
                input_row,
                a,
                spec_eval(graph, c1, row),
            );
        },
        Expr::BinaryExpr(op) => {
            let c0 = operand(graph, key, 0).unwrap();
            let c1 = operand(graph, key, 1).unwrap();
            lemma_compile_correct(graph, c0, proj, input_row, row, stack);
            let a = spec_eval(graph, c0, row);
            if a is Some {
                lemma_compile_correct(graph, c1, proj, input_row, row, stack.push(a.unwrap()));
            }
            lemma_run_join2(
                spec_compile(graph, c0, proj).unwrap().0,
                spec_compile(graph, c1, proj).unwrap().0,
                PInstruction::Arith(op),
                stack,
                input_row,
                a,
                spec_eval(graph, c1, row),
            );
        },
        Expr::LogExpr(op) => {
            let c0 = operand(graph, key, 0).unwrap();
            lemma_compile_correct(graph, c0, proj, input_row, row, stack);
            let a = spec_eval(graph, c0, row);
            if graph.children_of(key).len() == 2 {
                let c1 = operand(graph, key, 1).unwrap();
                if a is Some {
                    lemma_compile_correct(graph, c1, proj, input_row, row, stack.push(a.unwrap()));
                }
                lemma_run_join2(
                    spec_compile(graph, c0, proj).unwrap().0,
                    spec_compile(graph, c1, proj).unwrap().0,
                    PInstruction::Log(op),
                    stack,
                    input_row,
                    a,
                    spec_eval(graph, c1, row),
                );
            } else {
                let code0 = spec_compile(graph, c0, proj).unwrap().0;
                lemma_run_concat(code0, seq![PInstruction::Not], stack, input_row);
                if a is Some {
                    let s1 = stack.push(a.unwrap());
                    lemma_run_one(PInstruction::Not, s1, input_row);
                    assert(s1.take(s1.len() - 1) =~= stack);
                }
            }
        },
        Expr::AggFunction(_, _) => {},
    }
}

/// Compiled code is well formed.
pub proof fn lemma_compiled_depth(graph: &ExprGraph, key: usize, proj: Map<Projection, ColId>, d: nat)
    requires
        graph.wf(),
        spec_compile(graph, key, proj) is Ok,
    ensures
        depth(spec_compile(graph, key, proj).unwrap().0, d) == Some(d + 1),
    decreases key,
{
    let code = spec_compile(graph, key, proj).unwrap().0;
    match graph.value_of(key) {
        Expr::CID(_, _) | Expr::Column { .. } | Expr::Literal(_) => {
            assert(code.drop_last() =~= Seq::<PInstruction>::empty());
            assert(depth(code.drop_last(), d) == Some(d));
        },
        Expr::RelExpr(_) | Expr::BinaryExpr(_) => {
            let c0 = operand(graph, key, 0).unwrap();
            let c1 = operand(graph, key, 1).unwrap();
            let code0 = spec_compile(graph, c0, proj).unwrap().0;
            let code1 = spec_compile(graph, c1, proj).unwrap().0;
            lemma_compiled_depth(graph, c0, proj, d);
            lemma_compiled_depth(graph, c1, proj, d + 1);
            lemma_depth_concat(code0, code1, d);
            assert(code.drop_last() =~= code0 + code1);
        },
        Expr::LogExpr(_) => {
            let c0 = operand(graph, key, 0).unwrap();
            let code0 = spec_compile(graph, c0, proj).unwrap().0;
            lemma_compiled_depth(graph, c0, proj, d);
            if graph.children_of(key).len() == 2 {
                let c1 = operand(graph, key, 1).unwrap();
                let code1 = spec_compile(graph, c1, proj).unwrap().0;
                lemma_compiled_depth(graph, c1, proj, d + 1);
                lemma_depth_concat(code0, code1, d);
                assert(code.drop_last() =~= code0 + code1);
            } else {
                assert(code.drop_last() =~= code0);
            }
        },
        Expr::AggFunction(_, _) => {},
    }
}

/// The height after two programs in sequence.
proof fn lemma_depth_concat(a: Seq<PInstruction>, b: Seq<PInstruction>, d: nat)
    ensures
        depth(a + b, d) == match depth(a, d) {
            Some(k) => depth(b, k),
            None => None,
        },
    decreases b.len(),
{
    if b.len() == 0 {
        assert(a + b =~= a);
    } else {
        assert((a + b).drop_last() =~= a + b.drop_last());
        assert((a + b).last() == b.last());
        lemma_depth_concat(a, b.drop_last(), d);
    }
}

/// Round trip: on every input row that conforms to the projection map, the
/// program compiled from an expression has the value that evaluating the
/// expression on the row gives, and has none exactly where the expression
/// has none. The program is also well formed, so evaluating it over a chunk
/// fails only where some row has no value.
pub proof fn lemma_pcode_round_trip(
    graph: &ExprGraph,
    key: usize,
    proj: Map<Projection, ColId>,
    input_row: Seq<DatumView>,
    row: Seq<DatumView>,
)
    requires
        graph.wf(),
        spec_compile(graph, key, proj) is Ok,
        columns_agree(graph, key, proj, input_row, row),
    ensures
        run_row(spec_compile(graph, key, proj).unwrap().0, input_row) == spec_eval(graph, key, row),
        well_formed(spec_compile(graph, key, proj).unwrap().0),
{
    lemma_compile_correct(graph, key, proj, input_row, row, Seq::empty());
    lemma_compiled_depth(graph, key, proj, 0);
}

} // verus!
