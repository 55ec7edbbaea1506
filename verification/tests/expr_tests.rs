use flare::chunk::{Chunk, Column};
use flare::expr::{ArithOp, Expr, ExprGraph, ExprKey, ExprProp, LogOp, RelOp};
use flare::includes::QunCol;
use flare::pcode::{PCode, PInstruction};
use flare::pop::{Projection, ProjectionMap};
use flare::row::{DataType, Datum, Row};

fn prop(t: DataType) -> ExprProp {
    ExprProp { data_type: t }
}

/// emp(name, age, dept_id) as query unit 0.
fn emp_map() -> ProjectionMap {
    let mut m = ProjectionMap::new();
    m.set(Projection::QunCol(QunCol(0, 0)), 0);
    m.set(Projection::QunCol(QunCol(0, 1)), 1);
    m.set(Projection::QunCol(QunCol(0, 2)), 2);
    m
}

fn emp_chunk() -> Chunk {
    Chunk::new(vec![
        Column::Str(vec!["a".to_string(), "b".to_string(), "c".to_string()]),
        Column::Int(vec![20, 30, 25]),
        Column::Int(vec![1, 2, 1]),
    ])
}

fn emp_rows() -> Vec<Row> {
    vec![
        Row::new(vec![Datum::STR("a".to_string()), Datum::INT(20), Datum::INT(1)]),
        Row::new(vec![Datum::STR("b".to_string()), Datum::INT(30), Datum::INT(2)]),
        Row::new(vec![Datum::STR("c".to_string()), Datum::INT(25), Datum::INT(1)]),
    ]
}

/// age > 22
fn age_filter(graph: &mut ExprGraph) -> ExprKey {
    let age = graph.add_node_with_props(Expr::CID(0, 1), prop(DataType::INT), None);
    let lit = graph.add_node_with_props(Expr::Literal(Datum::INT(22)), prop(DataType::INT), None);
    let gt = graph.add_node_with_props(Expr::RelExpr(RelOp::Gt), prop(DataType::BOOL), Some(vec![age, lit]));
    ExprKey { id: gt }
}

#[test]
fn eval_compares_and_computes() {
    let mut graph = ExprGraph::new();
    let key = age_filter(&mut graph);
    let rows = emp_rows();
    assert_eq!(Expr::eval(&graph, key, &rows[0]), Datum::BOOL(false));
    assert_eq!(Expr::eval(&graph, key, &rows[1]), Datum::BOOL(true));
    assert_eq!(Expr::eval(&graph, key, &rows[2]), Datum::BOOL(true));

    let a = graph.add_node_with_props(Expr::Literal(Datum::INT(-7)), prop(DataType::INT), None);
    let b = graph.add_node_with_props(Expr::Literal(Datum::INT(2)), prop(DataType::INT), None);
    let div = graph.add_node_with_props(Expr::BinaryExpr(ArithOp::Div), prop(DataType::INT), Some(vec![a, b]));
    let sub = graph.add_node_with_props(Expr::BinaryExpr(ArithOp::Sub), prop(DataType::INT), Some(vec![a, b]));
    let mul = graph.add_node_with_props(Expr::BinaryExpr(ArithOp::Mul), prop(DataType::INT), Some(vec![a, b]));
    let add = graph.add_node_with_props(Expr::BinaryExpr(ArithOp::Add), prop(DataType::INT), Some(vec![a, b]));
    assert_eq!(Expr::eval(&graph, ExprKey { id: div }, &rows[0]), Datum::INT(-3));
    assert_eq!(Expr::eval(&graph, ExprKey { id: sub }, &rows[0]), Datum::INT(-9));
    assert_eq!(Expr::eval(&graph, ExprKey { id: mul }, &rows[0]), Datum::INT(-14));
    assert_eq!(Expr::eval(&graph, ExprKey { id: add }, &rows[0]), Datum::INT(-5));
}

#[test]
fn try_eval_has_no_value_on_bad_operands() {
    let mut graph = ExprGraph::new();
    let age = graph.add_node_with_props(Expr::CID(0, 1), prop(DataType::INT), None);
    let name = graph.add_node_with_props(Expr::CID(0, 0), prop(DataType::STR), None);
    let zero = graph.add_node_with_props(Expr::Literal(Datum::INT(0)), prop(DataType::INT), None);
    let max = graph.add_node_with_props(Expr::Literal(Datum::INT(i64::MAX)), prop(DataType::INT), None);
    let sum = graph.add_node_with_props(Expr::BinaryExpr(ArithOp::Add), prop(DataType::INT), Some(vec![age, name]));
    let div = graph.add_node_with_props(Expr::BinaryExpr(ArithOp::Div), prop(DataType::INT), Some(vec![age, zero]));
    let over = graph.add_node_with_props(Expr::BinaryExpr(ArithOp::Add), prop(DataType::INT), Some(vec![age, max]));
    let lt = graph.add_node_with_props(Expr::RelExpr(RelOp::Lt), prop(DataType::BOOL), Some(vec![name, name]));
    let eq = graph.add_node_with_props(Expr::RelExpr(RelOp::Eq), prop(DataType::BOOL), Some(vec![name, name]));
    let far = graph.add_node_with_props(Expr::CID(0, 9), prop(DataType::INT), None);
    let row = &emp_rows()[0];
    assert_eq!(Expr::try_eval(&graph, ExprKey { id: sum }, row), None);
    assert_eq!(Expr::try_eval(&graph, ExprKey { id: div }, row), None);
    assert_eq!(Expr::try_eval(&graph, ExprKey { id: over }, row), None);
    assert_eq!(Expr::try_eval(&graph, ExprKey { id: lt }, row), None);
    assert_eq!(Expr::try_eval(&graph, ExprKey { id: eq }, row), Some(Datum::BOOL(true)));
    assert_eq!(Expr::try_eval(&graph, ExprKey { id: far }, row), None);
    assert_eq!(Expr::try_eval(&graph, ExprKey { id: 99 }, row), None);
}

#[test]
fn logical_operators() {
    let mut graph = ExprGraph::new();
    let t = graph.add_node_with_props(Expr::Literal(Datum::BOOL(true)), prop(DataType::BOOL), None);
    let f = graph.add_node_with_props(Expr::Literal(Datum::BOOL(false)), prop(DataType::BOOL), None);
    let and = graph.add_node_with_props(Expr::LogExpr(LogOp::And), prop(DataType::BOOL), Some(vec![t, f]));
    let or = graph.add_node_with_props(Expr::LogExpr(LogOp::Or), prop(DataType::BOOL), Some(vec![t, f]));
    let not = graph.add_node_with_props(Expr::LogExpr(LogOp::Not), prop(DataType::BOOL), Some(vec![f]));
    let lone = graph.add_node_with_props(Expr::LogExpr(LogOp::And), prop(DataType::BOOL), Some(vec![t]));
    let row = Row::new(vec![]);
    assert_eq!(Expr::eval(&graph, ExprKey { id: and }, &row), Datum::BOOL(false));
    assert_eq!(Expr::eval(&graph, ExprKey { id: or }, &row), Datum::BOOL(true));
    assert_eq!(Expr::eval(&graph, ExprKey { id: not }, &row), Datum::BOOL(true));
    assert_eq!(Expr::try_eval(&graph, ExprKey { id: lone }, &row), None);
}

#[test]
fn compile_emits_post_order_code() {
    let mut graph = ExprGraph::new();
    let key = age_filter(&mut graph);
    let mut pcode = PCode::new();
    assert_eq!(key.compile(&graph, &mut pcode, &emp_map()), Ok(()));
    assert_eq!(
        pcode.instructions,
        vec![PInstruction::PushColumn(1), PInstruction::PushLit(Datum::INT(22)), PInstruction::Compare(RelOp::Gt)]
    );
    assert!(pcode.is_well_formed());
}

#[test]
fn pcode_agrees_with_eval_on_every_row() {
    let mut graph = ExprGraph::new();
    let age = graph.add_node_with_props(Expr::CID(0, 1), prop(DataType::INT), None);
    let dept = graph.add_node_with_props(
        Expr::Column { qun_id: 0, col_id: 2, offset: 2 },
        prop(DataType::INT),
        None,
    );
    let ten = graph.add_node_with_props(Expr::Literal(Datum::INT(10)), prop(DataType::INT), None);
    let mul = graph.add_node_with_props(Expr::BinaryExpr(ArithOp::Mul), prop(DataType::INT), Some(vec![dept, ten]));
    let sum = graph.add_node_with_props(Expr::BinaryExpr(ArithOp::Add), prop(DataType::INT), Some(vec![age, mul]));
    let lim = graph.add_node_with_props(Expr::Literal(Datum::INT(35)), prop(DataType::INT), None);
    let le = graph.add_node_with_props(Expr::RelExpr(RelOp::Le), prop(DataType::BOOL), Some(vec![sum, lim]));
    let not = graph.add_node_with_props(Expr::LogExpr(LogOp::Not), prop(DataType::BOOL), Some(vec![le]));
    for key in [sum, le, not] {
        let mut pcode = PCode::new();
        assert_eq!(ExprKey { id: key }.compile(&graph, &mut pcode, &emp_map()), Ok(()));
        let column = pcode.eval(&emp_chunk()).unwrap();
        for (i, row) in emp_rows().iter().enumerate() {
            assert_eq!(column.get(i), Expr::eval(&graph, ExprKey { id: key }, row));
        }
    }
    let mut pcode = PCode::new();
    assert_eq!(ExprKey { id: sum }.compile(&graph, &mut pcode, &emp_map()), Ok(()));
    assert_eq!(pcode.eval(&emp_chunk()), Ok(Column::Int(vec![30, 50, 35])));
}

#[test]
fn type_mismatch_is_a_compile_error() {
    let mut graph = ExprGraph::new();
    let age = graph.add_node_with_props(Expr::CID(0, 1), prop(DataType::INT), None);
    let name = graph.add_node_with_props(Expr::CID(0, 0), prop(DataType::STR), None);
    let sum = graph.add_node_with_props(Expr::BinaryExpr(ArithOp::Add), prop(DataType::INT), Some(vec![age, name]));
    let mut pcode = PCode::new();
    pcode.push(PInstruction::Neg);
    let res = ExprKey { id: sum }.compile(&graph, &mut pcode, &emp_map());
    assert!(res.clone().unwrap_err().contains("type mismatch"));
    assert_eq!(res, Err("Compile error: type mismatch".to_string()));
    assert_eq!(pcode.instructions, vec![PInstruction::Neg]);
}

#[test]
fn unresolved_column_is_a_compile_error() {
    let mut graph = ExprGraph::new();
    let other = graph.add_node_with_props(Expr::CID(4, 0), prop(DataType::INT), None);
    let mut pcode = PCode::new();
    let res = ExprKey { id: other }.compile(&graph, &mut pcode, &emp_map());
    assert_eq!(res, Err("Compile error: column cannot be resolved".to_string()));
}

#[test]
fn eval_of_pcode_reports_bad_programs_and_bad_operands() {
    let mut bad = PCode::new();
    bad.push(PInstruction::Arith(ArithOp::Add));
    assert_eq!(bad.eval(&emp_chunk()), Err("PCode: malformed program".to_string()));
    assert_eq!(PCode::new().eval(&emp_chunk()), Err("PCode: malformed program".to_string()));

    let mut mixed = PCode::new();
    mixed.push(PInstruction::PushColumn(0));
    mixed.push(PInstruction::PushColumn(1));
    mixed.push(PInstruction::Arith(ArithOp::Add));
    assert_eq!(mixed.eval(&emp_chunk()), Err("PCode: runtime type error".to_string()));
    // No row, no operand of the wrong type.
    let empty = Chunk::new(vec![Column::Str(vec![]), Column::Int(vec![])]);
    assert_eq!(mixed.eval(&empty), Ok(Column::Int(vec![])));
}

#[test]
fn missing_column_and_constants_are_broadcast() {
    let mut missing = PCode::new();
    missing.push(PInstruction::PushColumn(7));
    assert_eq!(missing.eval(&emp_chunk()), Ok(Column::Null(3)));
    let mut constant = PCode::new();
    constant.push(PInstruction::PushLit(Datum::STR("x".to_string())));
    assert_eq!(
        constant.eval(&emp_chunk()),
        Ok(Column::Str(vec!["x".to_string(), "x".to_string(), "x".to_string()]))
    );
    let mut neg = PCode::new();
    neg.push(PInstruction::PushColumn(1));
    neg.push(PInstruction::Neg);
    assert_eq!(neg.eval(&emp_chunk()), Ok(Column::Int(vec![-20, -30, -25])));
    let mut not = PCode::new();
    not.push(PInstruction::PushLit(Datum::BOOL(false)));
    not.push(PInstruction::Not);
    assert_eq!(not.eval(&emp_chunk()), Ok(Column::Bool(vec![true, true, true])));
}

#[test]
fn projection_map_last_assignment_wins() {
    let mut m = ProjectionMap::new();
    assert_eq!(m.get(Projection::QunCol(QunCol(0, 0))), None);
    m.set(Projection::QunCol(QunCol(0, 0)), 3);
    m.set(Projection::VirtCol(ExprKey { id: 0 }), 4);
    m.set(Projection::QunCol(QunCol(0, 0)), 5);
    assert_eq!(m.get(Projection::QunCol(QunCol(0, 0))), Some(5));
    assert_eq!(m.get(Projection::VirtCol(ExprKey { id: 0 })), Some(4));
    assert_eq!(m.get(Projection::VirtCol(ExprKey { id: 1 })), None);
}

#[test]
fn malformed_and_aggregate_expressions_do_not_compile() {
    let mut graph = ExprGraph::new();
    let age = graph.add_node_with_props(Expr::CID(0, 1), prop(DataType::INT), None);
    let lone = graph.add_node_with_props(Expr::BinaryExpr(ArithOp::Add), prop(DataType::INT), Some(vec![age]));
    let bare = graph.add_node_with_props(Expr::RelExpr(RelOp::Eq), prop(DataType::BOOL), None);
    let sum = graph.add_node_with_props(
        Expr::AggFunction(flare::expr::AggType::SUM, false),
        prop(DataType::INT),
        Some(vec![age]),
    );
    let and = graph.add_node_with_props(Expr::LogExpr(LogOp::And), prop(DataType::BOOL), Some(vec![age]));
    let malformed = Err("Compile error: malformed expression".to_string());
    for key in [lone, bare, and, 77] {
        let mut pcode = PCode::new();
        assert_eq!(ExprKey { id: key }.compile(&graph, &mut pcode, &emp_map()), malformed);
        assert_eq!(pcode.len(), 0);
    }
    let mut pcode = PCode::new();
    assert_eq!(
        ExprKey { id: sum }.compile(&graph, &mut pcode, &emp_map()),
        Err("Compile error: aggregate function in a scalar expression".to_string())
    );
    assert_eq!(Expr::try_eval(&graph, ExprKey { id: sum }, &emp_rows()[0]), None);
}
