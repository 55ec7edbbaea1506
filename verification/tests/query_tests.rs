use flare::compiler::Compiler;
use flare::expr::{AggType, Expr, ExprGraph, ExprKey, ExprProp, RelOp};
use flare::includes::QunCol;
use flare::metadata::Metadata;
use flare::nodeflow::{make_join_flow, make_mvp_flow, make_simple_flow, Node, NodeInner};
use flare::qgm::{NamedExpr, QGMMetadata, Quantifier, QueryBlock, QueryBlockGraph, QueryBlockKey, QueryBlockProps, QGM};
use flare::row::{DataType, Datum};
use flare::task::{dispatch_partitions, Dispatch, ThreadPoolMessage, WorkerAction};
use flare::text::{contains_text, parse_bounded, split_fields, usize_to_string};

fn prop(t: DataType) -> ExprProp {
    ExprProp { data_type: t }
}

fn named(id: usize) -> NamedExpr {
    NamedExpr { alias: None, expr_key: ExprKey { id } }
}

fn table(id: usize, name: &str) -> Quantifier {
    Quantifier { id, tablename: Some(name.to_string()), qblock: None }
}

fn nested(id: usize, block: usize) -> Quantifier {
    Quantifier { id, tablename: None, qblock: Some(QueryBlockKey { id: block }) }
}

fn block(select: &[usize], quns: Vec<Quantifier>, preds: Option<Vec<usize>>) -> QueryBlock {
    QueryBlock {
        select_list: select.iter().map(|id| named(*id)).collect(),
        quns,
        pred_list: preds.map(|l| l.into_iter().map(|id| ExprKey { id }).collect()),
        group_by: None,
        having_clause: None,
    }
}

/// Expressions: 0 = t.c1, 1 = 10, 2 = c1 > 10, 3 = t.c0, 4 = sum(c0), 5 = u.c3 = c0.
fn expressions() -> ExprGraph {
    let mut graph = ExprGraph::new();
    graph.add_node_with_props(Expr::CID(0, 1), prop(DataType::INT), None);
    graph.add_node_with_props(Expr::Literal(Datum::INT(10)), prop(DataType::INT), None);
    graph.add_node_with_props(Expr::RelExpr(RelOp::Gt), prop(DataType::BOOL), Some(vec![0, 1]));
    graph.add_node_with_props(Expr::Column { qun_id: 0, col_id: 0, offset: 0 }, prop(DataType::INT), None);
    graph.add_node_with_props(Expr::AggFunction(AggType::SUM, false), prop(DataType::INT), Some(vec![3]));
    let other = graph.add_node_with_props(Expr::CID(1, 3), prop(DataType::INT), None);
    graph.add_node_with_props(Expr::RelExpr(RelOp::Eq), prop(DataType::BOOL), Some(vec![other, 3]));
    graph
}

fn single_table_query() -> QGM {
    let mut blocks = QueryBlockGraph::new();
    let main = blocks.add_node_with_props(
        block(&[4, 0], vec![table(0, "EMP")], Some(vec![2, 6])),
        QueryBlockProps {},
        None,
    );
    QGM {
        main_qblock_key: QueryBlockKey { id: main },
        cte_list: vec![],
        qblock_graph: blocks,
        expr_graph: expressions(),
        metadata: QGMMetadata::new(),
    }
}

#[test]
fn simple_flow_is_scan_filter_project_aggregate_emit() {
    let flow = make_simple_flow("/data");
    assert_eq!(flow.id, 99);
    assert_eq!(
        flow.nodes,
        vec![
            Node { id: 0, children: vec![], inner: NodeInner::CSV { filename: "/data/emp.csv".to_string(), npartitions: 4 } },
            Node { id: 1, children: vec![0], inner: NodeInner::Filter { expr: ExprKey { id: 2 } } },
            Node { id: 2, children: vec![1], inner: NodeInner::Project { colids: vec![2, 1, 0] } },
            Node {
                id: 3,
                children: vec![2],
                inner: NodeInner::Agg {
                    keycolids: vec![0],
                    aggcolids: vec![(AggType::COUNT, 0), (AggType::SUM, 1), (AggType::MIN, 2), (AggType::MAX, 2)],
                    npartitions: 3,
                },
            },
            Node { id: 4, children: vec![3], inner: NodeInner::Emit { select_list: None } },
        ]
    );
    assert_eq!(flow.graph.len(), 3);
    assert_eq!(*flow.graph.get_value(2), Expr::RelExpr(RelOp::Gt));
    assert_eq!(*flow.graph.get_value(1), Expr::Literal(Datum::INT(10)));
}

#[test]
fn join_and_mvp_flows() {
    let mvp = make_mvp_flow("d");
    assert_eq!(mvp.id, 98);
    assert_eq!(mvp.nodes.len(), 3);
    assert_eq!(mvp.nodes[0].inner, NodeInner::CSV { filename: "d/emp.csv".to_string(), npartitions: 4 });
    assert_eq!(mvp.nodes[1].inner, NodeInner::Project { colids: vec![2] });
    assert_eq!(mvp.nodes[2].children, vec![1]);
    let join = make_join_flow("d");
    assert_eq!(join.id, 97);
    assert_eq!(join.nodes.len(), 6);
    assert_eq!(join.nodes[3].inner, NodeInner::CSV { filename: "d/dept.csv".to_string(), npartitions: 4 });
    assert_eq!(join.nodes[4].children, vec![2, 3]);
    assert_eq!(join.nodes[4].inner, NodeInner::Join { joincols: vec![(2, RelOp::Eq, 0)] });
    assert_eq!(join.nodes[5].children, vec![4]);
    for (i, node) in join.nodes.iter().enumerate() {
        assert_eq!(node.id, i);
    }
}

#[test]
fn compiler_turns_a_single_table_query_into_a_flow() {
    let mut qgm = single_table_query();
    let flow = Compiler::compile(&mut qgm).unwrap();
    assert_eq!(flow.id, 99);
    assert_eq!(
        flow.nodes,
        vec![
            Node { id: 0, children: vec![], inner: NodeInner::CSV { filename: "EMP".to_string(), npartitions: 4 } },
            Node { id: 1, children: vec![0], inner: NodeInner::Filter { expr: ExprKey { id: 2 } } },
            Node { id: 2, children: vec![1], inner: NodeInner::Filter { expr: ExprKey { id: 6 } } },
            Node {
                id: 3,
                children: vec![2],
                // the aggregate function is stripped to its argument
                inner: NodeInner::Emit { select_list: Some(vec![ExprKey { id: 3 }, ExprKey { id: 0 }]) },
            },
        ]
    );
    assert_eq!(flow.graph.len(), 7);
    assert_eq!(qgm.expr_graph.len(), 0);
}

#[test]
fn compiler_faults_leave_the_query_alone() {
    let mut two = single_table_query();
    two.qblock_graph = QueryBlockGraph::new();
    two.qblock_graph.add_node_with_props(block(&[0], vec![table(0, "A"), table(1, "B")], None), QueryBlockProps {}, None);
    assert_eq!(
        Compiler::compile(&mut two).unwrap_err(),
        "Compiler: only single-table queries are supported"
    );
    assert_eq!(two.expr_graph.len(), 7);
    let mut sub = single_table_query();
    sub.qblock_graph = QueryBlockGraph::new();
    sub.qblock_graph.add_node_with_props(block(&[0], vec![nested(0, 0)], None), QueryBlockProps {}, None);
    assert_eq!(Compiler::compile(&mut sub).unwrap_err(), "Compiler: only single-table queries are supported");
    let mut lost = single_table_query();
    lost.main_qblock_key = QueryBlockKey { id: 5 };
    assert_eq!(Compiler::compile(&mut lost).unwrap_err(), "Compiler: the query has no main block");
    let mut bad = single_table_query();
    bad.qblock_graph = QueryBlockGraph::new();
    bad.qblock_graph.add_node_with_props(block(&[0, 42], vec![table(0, "A")], None), QueryBlockProps {}, None);
    assert_eq!(
        Compiler::compile(&mut bad).unwrap_err(),
        "Compiler: the select list names an expression that does not exist"
    );
}

/// Blocks: 0 and 1 are leaves, 2 nests 0 and 1, 3 is a table expression that nests 0.
fn nested_query() -> QGM {
    let mut blocks = QueryBlockGraph::new();
    blocks.add_node_with_props(block(&[0], vec![table(0, "T")], Some(vec![2])), QueryBlockProps {}, None);
    blocks.add_node_with_props(block(&[3], vec![table(1, "U")], None), QueryBlockProps {}, None);
    let mut main = block(&[4], vec![nested(2, 0), table(3, "V"), nested(4, 1)], Some(vec![6]));
    main.group_by = Some(vec![ExprKey { id: 3 }]);
    main.having_clause = Some(vec![ExprKey { id: 2 }]);
    blocks.add_node_with_props(main, QueryBlockProps {}, None);
    blocks.add_node_with_props(block(&[1], vec![nested(5, 0)], None), QueryBlockProps {}, None);
    QGM {
        main_qblock_key: QueryBlockKey { id: 2 },
        cte_list: vec![QueryBlockKey { id: 3 }],
        qblock_graph: blocks,
        expr_graph: expressions(),
        metadata: QGMMetadata::new(),
    }
}

#[test]
fn walks_over_a_query() {
    let qgm = nested_query();
    let mut iter = qgm.iter_qblocks();
    let mut order = vec![];
    while let Some(key) = iter.next() {
        order.push(key.id);
    }
    // the table expression and what it nests, then the main block and its nested blocks, last first
    assert_eq!(order, vec![3, 0, 2, 1, 0]);
    assert_eq!(iter.next(), None);

    let main = QueryBlockKey { id: 2 };
    let ids: Vec<usize> = main.iter_preds(&qgm.qblock_graph).iter().map(|e| e.id).collect();
    assert_eq!(ids, vec![4, 6, 3, 2]);
    assert_eq!(
        main.iter_quncols(&qgm.qblock_graph, &qgm.expr_graph),
        vec![QunCol(0, 0), QunCol(0, 0), QunCol(1, 3), QunCol(0, 0), QunCol(0, 1)]
    );
    let all: Vec<usize> = qgm.iter_preds().iter().map(|e| e.id).collect();
    assert_eq!(all, vec![1, 0, 2, 4, 6, 3, 2, 3, 0, 2]);
    assert_eq!(qgm.iter_quncols().len(), 10);
    assert_eq!(qgm.iter_quncols()[0], QunCol(0, 1));
}

#[test]
fn walks_over_an_expression() {
    let graph = expressions();
    // node, then its children from the last to the first
    assert_eq!(graph.iter(6), vec![6, 3, 5]);
    assert_eq!(graph.iter(2), vec![2, 1, 0]);
    assert_eq!(graph.iter(42), Vec::<usize>::new());
    assert_eq!(ExprKey { id: 6 }.iter_quncols(&graph), vec![QunCol(0, 0), QunCol(1, 3)]);
    assert_eq!(ExprKey { id: 6 }.iter_quns(&graph), vec![0, 1]);
    assert_eq!(ExprKey { id: 1 }.iter_quns(&graph), Vec::<usize>::new());
}

#[test]
fn describe_table_lists_the_columns() {
    let mut catalog = Metadata::new();
    let options = vec![
        ("TYPE".to_string(), "CSV".to_string()),
        ("PATH".to_string(), "/data/emp.csv".to_string()),
        ("HEADER".to_string(), "Y".to_string()),
    ];
    let sample: Vec<String> = ["name,age,ok", "a,20,true"].iter().map(|s| s.to_string()).collect();
    catalog.catalog_table("emp".to_string(), options, &sample).unwrap();
    assert_eq!(
        catalog.describe_table("Emp".to_string()).unwrap(),
        vec![
            "Table EMP",
            "  FILENAME = \"/data/emp.csv\"",
            "  HEADER = true",
            "  SEPARATOR = ','",
            "  3 COLUMNS",
            "      NAME STR",
            "      AGE INT",
            "      OK BOOL",
        ]
    );
    assert_eq!(catalog.describe_table("dept".to_string()), Err("Table DEPT does not exist.".to_string()));
}

#[test]
fn workers_run_tasks_until_told_to_stop() {
    assert_eq!(ThreadPoolMessage::RunTask(vec![1, 2]).for_worker(), Ok(WorkerAction::Run(vec![1, 2])));
    assert_eq!(ThreadPoolMessage::EndTask.for_worker(), Ok(WorkerAction::Stop));
    assert_eq!(ThreadPoolMessage::TaskEnded.for_worker(), Err("Invalid message".to_string()));
    assert_eq!(
        dispatch_partitions(5, 2),
        vec![
            Dispatch { thread_id: 0, partition_id: 0 },
            Dispatch { thread_id: 1, partition_id: 1 },
            Dispatch { thread_id: 0, partition_id: 2 },
            Dispatch { thread_id: 1, partition_id: 3 },
            Dispatch { thread_id: 0, partition_id: 4 },
        ]
    );
    assert_eq!(dispatch_partitions(0, 3), vec![]);
}

#[test]
fn text_helpers() {
    assert_eq!(usize_to_string(0), "0");
    assert_eq!(usize_to_string(907), "907");
    assert_eq!(usize_to_string(usize::MAX), usize::MAX.to_string());
    assert_eq!(split_fields("a,b,,c", ','), vec!["a", "b", "", "c"]);
    assert_eq!(split_fields("", ','), vec![""]);
    assert_eq!(split_fields(",", ','), vec!["", ""]);
    assert_eq!(split_fields("äö|ü", '|'), vec!["äö", "ü"]);
    assert!(contains_text("Os { kind: NotFound }", "kind: NotFound"));
    assert!(!contains_text("Os { kind: Other }", "kind: NotFound"));
    assert!(contains_text("abc", ""));
    assert!(!contains_text("ab", "abc"));
    assert_eq!(parse_bounded("-128", -128, 127), Some(-128));
    assert_eq!(parse_bounded("128", -128, 127), None);
    assert_eq!(parse_bounded("+0", -128, 127), Some(0));
    assert_eq!(parse_bounded("007", -128, 127), Some(7));
    assert_eq!(parse_bounded("", -128, 127), None);
    assert_eq!(parse_bounded("+", -128, 127), None);
    assert_eq!(parse_bounded("1 ", -128, 127), None);
    assert_eq!(parse_bounded("99999999999999999999999", -128, i64::MAX), None);
    assert_eq!(parse_bounded("-9223372036854775808", i64::MIN, i64::MAX), Some(i64::MIN));
    assert_eq!(parse_bounded("-9223372036854775809", i64::MIN, i64::MAX), None);
    assert_eq!(parse_bounded("9223372036854775807", i64::MIN, i64::MAX), Some(i64::MAX));
}

#[test]
fn graphs_can_be_checked_before_they_are_walked() {
    let mut qgm = nested_query();
    assert!(qgm.check());
    assert!(qgm.qblock_graph.check());
    // A block that nests a block added after it.
    qgm.qblock_graph.nodes[0].value.quns.push(nested(9, 2));
    assert!(qgm.qblock_graph.check());
    assert!(!qgm.check());
    // A block that nests itself.
    let mut qgm = nested_query();
    qgm.qblock_graph.nodes[1].value.quns.push(nested(9, 1));
    assert!(!qgm.check());
    // An expression that is its own operand.
    let mut qgm = nested_query();
    qgm.expr_graph.nodes[2].children = Some(vec![0, 2]);
    assert!(!qgm.expr_graph.check());
    assert!(!qgm.check());
    assert!(ExprGraph::new().check());
}
