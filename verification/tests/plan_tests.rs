use flare::bitset::Bitset;
use flare::chunk::{Field, Schema};
use flare::expr::{AggType, ArithOp, Expr, ExprGraph, ExprKey, ExprProp, RelOp};
use flare::graph::Graph;
use flare::includes::QunCol;
use flare::lop::{LOPGraph, LOPKey, LOPProps, PartDesc, PartType, LOP};
use flare::metadata::{CSVDesc, ColDesc, TableType};
use flare::pcode::{PCode, PInstruction};
use flare::pop::{POPGraph, POPKey, POPProps, Projection, POP};
use flare::qgm::{QGMMetadata, QueryBlockGraph, QueryBlockKey, QGM};
use flare::row::{DataType, Datum};
use flare::stage::{StageGraph, StageLink};

fn prop(t: DataType) -> ExprProp {
    ExprProp { data_type: t }
}

fn cols(list: &[(usize, usize)]) -> Bitset<QunCol> {
    let mut set: Bitset<QunCol> = Bitset::new();
    for (q, c) in list {
        set.set(QunCol(*q, *c));
    }
    set
}

fn exprs(list: &[usize]) -> Bitset<ExprKey> {
    let mut set: Bitset<ExprKey> = Bitset::new();
    for id in list {
        set.set(ExprKey { id: *id });
    }
    set
}

fn quns(list: &[usize]) -> Bitset<usize> {
    let mut set: Bitset<usize> = Bitset::new();
    for q in list {
        set.set(*q);
    }
    set
}

fn emp_desc() -> CSVDesc {
    CSVDesc {
        filename: "/data/emp.csv".to_string(),
        header: true,
        separator: ',',
        columns: vec![
            ColDesc::new(0, "NAME".to_string(), DataType::STR),
            ColDesc::new(1, "AGE".to_string(), DataType::INT),
            ColDesc::new(2, "DEPT_ID".to_string(), DataType::INT),
        ],
    }
}

fn dept_desc() -> CSVDesc {
    CSVDesc {
        filename: "/data/dept".to_string(),
        header: false,
        separator: '|',
        columns: vec![
            ColDesc::new(0, "DEPT_ID".to_string(), DataType::INT),
            ColDesc::new(1, "DNAME".to_string(), DataType::STR),
        ],
    }
}

/// Expressions: 0 = emp.age, 1 = 22, 2 = age > 22, 3 = emp.name, 4 = age + name,
/// 5 = emp.dept_id, 6 = dept.dept_id, 7 = age + 1.
fn query() -> QGM {
    let mut graph = ExprGraph::new();
    graph.add_node_with_props(Expr::CID(0, 1), prop(DataType::INT), None);
    graph.add_node_with_props(Expr::Literal(Datum::INT(22)), prop(DataType::INT), None);
    graph.add_node_with_props(Expr::RelExpr(RelOp::Gt), prop(DataType::BOOL), Some(vec![0, 1]));
    graph.add_node_with_props(Expr::CID(0, 0), prop(DataType::STR), None);
    graph.add_node_with_props(Expr::BinaryExpr(ArithOp::Add), prop(DataType::INT), Some(vec![0, 3]));
    graph.add_node_with_props(Expr::CID(0, 2), prop(DataType::INT), None);
    graph.add_node_with_props(Expr::CID(1, 0), prop(DataType::INT), None);
    graph.add_node_with_props(Expr::BinaryExpr(ArithOp::Add), prop(DataType::INT), Some(vec![0, 1]));
    let mut metadata = QGMMetadata::new();
    metadata.add_tabledesc(0, TableType::CSV, emp_desc());
    metadata.add_tabledesc(1, TableType::CSVDIR, dept_desc());
    QGM {
        main_qblock_key: QueryBlockKey { id: 0 },
        cte_list: vec![],
        qblock_graph: QueryBlockGraph::new(),
        expr_graph: graph,
        metadata,
    }
}

fn scan_props(qun: usize, columns: &[(usize, usize)], preds: &[usize], npartitions: usize) -> LOPProps {
    LOPProps {
        quns: quns(&[qun]),
        cols: cols(columns),
        virtcols: None,
        preds: exprs(preds),
        partdesc: PartDesc { npartitions, part_type: PartType::RAW },
    }
}

fn push(code: &[PInstruction]) -> PCode {
    let mut pcode = PCode::new();
    for inst in code {
        pcode.push(inst.clone());
    }
    pcode
}

#[test]
fn projection_map_numbers_real_then_virtual_columns() {
    let real = cols(&[(0, 2), (0, 0), (1, 1)]);
    let virt = vec![ExprKey { id: 9 }, ExprKey { id: 4 }];
    let map = POP::compute_projection_map(&real, Some(&virt));
    assert_eq!(map.get(Projection::QunCol(QunCol(0, 2))), Some(0));
    assert_eq!(map.get(Projection::QunCol(QunCol(0, 0))), Some(1));
    assert_eq!(map.get(Projection::QunCol(QunCol(1, 1))), Some(2));
    assert_eq!(map.get(Projection::VirtCol(ExprKey { id: 9 })), Some(3));
    assert_eq!(map.get(Projection::VirtCol(ExprKey { id: 4 })), Some(4));
    assert_eq!(map.get(Projection::QunCol(QunCol(1, 0))), None);
    let mut indices: Vec<usize> = map.entries.iter().map(|e| e.1).collect();
    indices.sort();
    assert_eq!(indices, vec![0, 1, 2, 3, 4]);
    let none = POP::compute_projection_map(&cols(&[]), None);
    assert_eq!(none.entries.len(), 0);
}

#[test]
fn bitsets_keep_first_occurrences_in_order() {
    let set = cols(&[(0, 2), (0, 0), (0, 2), (1, 0)]);
    assert_eq!(set.elements(), &vec![QunCol(0, 2), QunCol(0, 0), QunCol(1, 0)]);
    assert_eq!(set.len(), 3);
    assert!(set.get(QunCol(0, 0)));
    assert!(!set.get(QunCol(2, 0)));
}

#[test]
fn compile_scan_builds_a_csv_scan() {
    let qgm = query();
    let mut lops: LOPGraph = Graph::new();
    let scan = lops.add_node_with_props(
        LOP::TableScan { input_projection: cols(&[(0, 0), (0, 1), (0, 2)]) },
        scan_props(0, &[(0, 2), (0, 1), (0, 0)], &[2], 4),
        None,
    );
    let mut pops = POPGraph::new();
    let key = POP::compile_scan(&qgm, &lops, LOPKey { id: scan }, &mut pops).unwrap();
    assert_eq!(key, POPKey { id: 0 });
    let (pop, props, children) = pops.get3(0);
    assert!(children.is_none());
    match pop {
        POP::CSV(csv) => {
            assert_eq!(csv.pathname, "/data/emp.csv");
            assert!(csv.header);
            assert_eq!(csv.separator, ',');
            assert_eq!(csv.npartitions, 4);
            assert_eq!(csv.projection, vec![0, 1, 2]);
            assert_eq!(csv.fields[1], Field { name: "AGE".to_string(), data_type: DataType::INT });
            assert_eq!(csv.fields.len(), 3);
        }
        other => panic!("not a scan: {:?}", other),
    }
    assert_eq!(
        *props,
        POPProps {
            predicates: Some(vec![push(&[
                PInstruction::PushColumn(1),
                PInstruction::PushLit(Datum::INT(22)),
                PInstruction::Compare(RelOp::Gt),
            ])]),
            cols: Some(vec![2, 1, 0]),
            virtcols: None,
            npartitions: 4,
            index_in_stage: 0,
        }
    );
}

#[test]
fn compile_scan_faults() {
    let qgm = query();
    let mut lops: LOPGraph = Graph::new();
    let unknown = lops.add_node_with_props(
        LOP::TableScan { input_projection: cols(&[(7, 0)]) },
        scan_props(7, &[(7, 0)], &[], 1),
        None,
    );
    let unresolved = lops.add_node_with_props(
        LOP::TableScan { input_projection: cols(&[(0, 0)]) },
        scan_props(0, &[(0, 1)], &[], 1),
        None,
    );
    let mismatch = lops.add_node_with_props(
        LOP::TableScan { input_projection: cols(&[(0, 0), (0, 1)]) },
        scan_props(0, &[(0, 1)], &[4], 1),
        None,
    );
    let join = lops.add_node_with_props(LOP::HashJoin { keys: vec![] }, scan_props(0, &[], &[], 1), None);
    let mut pops = POPGraph::new();
    assert_eq!(
        POP::compile_scan(&qgm, &lops, LOPKey { id: unknown }, &mut pops),
        Err("Compile error: unknown table".to_string())
    );
    assert_eq!(
        POP::compile_scan(&qgm, &lops, LOPKey { id: unresolved }, &mut pops),
        Err("Compile error: column cannot be resolved".to_string())
    );
    let err = POP::compile_scan(&qgm, &lops, LOPKey { id: mismatch }, &mut pops).unwrap_err();
    assert!(err.contains("type mismatch"));
    assert_eq!(
        POP::compile_scan(&qgm, &lops, LOPKey { id: join }, &mut pops),
        Err("Internal error: compile_scan() received a POP that isn't a TableScan".to_string())
    );
    assert_eq!(pops.len(), 0);
}

/// scan(emp) -> repartition on dept_id into 3 -> aggregation by dept_id
fn shuffled_plan() -> (LOPGraph, LOPKey) {
    let mut lops: LOPGraph = Graph::new();
    let scan = lops.add_node_with_props(
        LOP::TableScan { input_projection: cols(&[(0, 0), (0, 1), (0, 2)]) },
        scan_props(0, &[(0, 2), (0, 1)], &[], 4),
        None,
    );
    let shuffle = lops.add_node_with_props(
        LOP::Repartition { part_type: PartType::HASHEXPR(vec![ExprKey { id: 5 }]) },
        LOPProps {
            quns: quns(&[0]),
            cols: cols(&[(0, 2), (0, 1)]),
            virtcols: Some(vec![ExprKey { id: 7 }]),
            preds: exprs(&[]),
            partdesc: PartDesc { npartitions: 3, part_type: PartType::HASHEXPR(vec![ExprKey { id: 5 }]) },
        },
        Some(vec![scan]),
    );
    let agg = lops.add_node_with_props(
        LOP::Aggregation {
            group_by: vec![ExprKey { id: 5 }],
            aggs: vec![(AggType::COUNT, ExprKey { id: 1 }), (AggType::SUM, ExprKey { id: 0 })],
        },
        LOPProps {
            quns: quns(&[0]),
            cols: cols(&[(0, 2)]),
            virtcols: None,
            preds: exprs(&[]),
            partdesc: PartDesc { npartitions: 3, part_type: PartType::ANY },
        },
        Some(vec![shuffle]),
    );
    (lops, LOPKey { id: agg })
}

#[test]
fn compile_cuts_the_plan_into_stages() {
    let qgm = query();
    let (lops, root) = shuffled_plan();
    let flow = POP::compile(&qgm, &lops, root).unwrap();
    assert_eq!(flow.id, 0);
    // scan, write, read, aggregation
    assert_eq!(flow.pop_graph.len(), 4);
    let stages = &flow.stage_graph.stages;
    assert_eq!(stages.len(), 2);
    assert_eq!(stages[0].parent_stage_id, None);
    assert_eq!(stages[0].root_pop_key, Some(POPKey { id: 3 }));
    assert_eq!(stages[0].npartitions, 3);
    assert_eq!(stages[0].pop_count, 2);
    assert_eq!(stages[0].root_lop_key, root);
    assert_eq!(stages[1].parent_stage_id, Some(0));
    assert_eq!(stages[1].root_pop_key, Some(POPKey { id: 1 }));
    assert_eq!(stages[1].npartitions, 4);
    assert_eq!(stages[1].pop_count, 2);
    assert_eq!(flow.stage_graph.execution_order(), vec![1, 0]);

    let schema = Schema::new(vec![
        Field { name: "DEPT_ID".to_string(), data_type: DataType::INT },
        Field { name: "AGE".to_string(), data_type: DataType::INT },
        Field { name: "VIRTCOL_0".to_string(), data_type: DataType::INT },
    ]);
    let (scan, scan_props, _) = flow.pop_graph.get3(0);
    assert!(matches!(scan, POP::CSV(_)));
    assert_eq!(scan_props.index_in_stage, 0);
    assert_eq!(scan_props.npartitions, 4);
    let (write, write_props, write_children) = flow.pop_graph.get3(1);
    match write {
        POP::RepartitionWrite(w) => {
            assert_eq!(*w.cpartitions(), 3);
            assert_eq!(*w.stage_link(), StageLink(1, 0));
            assert_eq!(*w.schema(), schema);
            assert_eq!(*w.repart_key(), vec![push(&[PInstruction::PushColumn(0)])]);
        }
        other => panic!("not a write: {:?}", other),
    }
    assert_eq!(write_children, Some(&vec![0]));
    assert_eq!(write_props.index_in_stage, 1);
    assert_eq!(write_props.npartitions, 4);
    assert_eq!(write_props.predicates, None);
    assert_eq!(write_props.cols, Some(vec![0, 1]));
    assert_eq!(
        write_props.virtcols,
        Some(vec![push(&[
            PInstruction::PushColumn(1),
            PInstruction::PushLit(Datum::INT(22)),
            PInstruction::Arith(ArithOp::Add),
        ])])
    );
    let (read, read_props, read_children) = flow.pop_graph.get3(2);
    match read {
        POP::RepartitionRead(r) => {
            assert_eq!(*r.stage_link(), StageLink(1, 0));
            assert_eq!(*r.schema(), schema);
        }
        other => panic!("not a read: {:?}", other),
    }
    assert_eq!(read_children, Some(&vec![1]));
    assert_eq!(read_props.index_in_stage, 0);
    assert_eq!(read_props.npartitions, 3);
    assert_eq!(read_props.cols, Some(vec![0, 1, 2]));
    let (agg, agg_props, agg_children) = flow.pop_graph.get3(3);
    match agg {
        POP::Aggregation(a) => {
            assert_eq!(a.keys, vec![push(&[PInstruction::PushColumn(0)])]);
            assert_eq!(a.kinds, vec![AggType::COUNT, AggType::SUM]);
            assert_eq!(
                a.args,
                vec![push(&[PInstruction::PushLit(Datum::INT(22))]), push(&[PInstruction::PushColumn(1)])]
            );
        }
        other => panic!("not an aggregation: {:?}", other),
    }
    assert_eq!(agg_children, Some(&vec![2]));
    assert_eq!(agg_props.index_in_stage, 1);
    assert_eq!(agg_props.npartitions, 3);
}

#[test]
fn compile_join_lays_out_left_then_right() {
    let qgm = query();
    let mut lops: LOPGraph = Graph::new();
    let emp = lops.add_node_with_props(
        LOP::TableScan { input_projection: cols(&[(0, 0), (0, 1), (0, 2)]) },
        scan_props(0, &[(0, 0), (0, 2)], &[], 2),
        None,
    );
    let dept = lops.add_node_with_props(
        LOP::TableScan { input_projection: cols(&[(1, 0), (1, 1)]) },
        scan_props(1, &[(1, 0), (1, 1)], &[], 2),
        None,
    );
    let join = lops.add_node_with_props(
        LOP::HashJoin { keys: vec![(ExprKey { id: 5 }, ExprKey { id: 6 })] },
        LOPProps {
            quns: quns(&[0, 1]),
            cols: cols(&[(0, 0), (1, 1)]),
            virtcols: None,
            preds: exprs(&[]),
            partdesc: PartDesc { npartitions: 2, part_type: PartType::ANY },
        },
        Some(vec![emp, dept]),
    );
    let flow = POP::compile(&qgm, &lops, LOPKey { id: join }).unwrap();
    assert_eq!(flow.pop_graph.len(), 3);
    assert!(matches!(flow.pop_graph.get_value(1), POP::CSVDir(_)));
    let (pop, props, children) = flow.pop_graph.get3(2);
    match pop {
        POP::HashJoin(j) => {
            assert_eq!(j.left_keys, vec![push(&[PInstruction::PushColumn(1)])]);
            assert_eq!(j.right_keys, vec![push(&[PInstruction::PushColumn(0)])]);
        }
        other => panic!("not a join: {:?}", other),
    }
    assert_eq!(children, Some(&vec![0, 1]));
    // name is column 0 of the left input, dname column 1 of the right one, which starts at 2
    assert_eq!(props.cols, Some(vec![0, 3]));
    assert_eq!(props.index_in_stage, 2);
    assert_eq!(flow.stage_graph.stages.len(), 1);
    assert_eq!(flow.stage_graph.stages[0].pop_count, 3);
    assert_eq!(flow.stage_graph.stages[0].root_pop_key, Some(POPKey { id: 2 }));
}

#[test]
fn a_type_mismatch_builds_no_plan() {
    let qgm = query();
    let mut lops: LOPGraph = Graph::new();
    let scan = lops.add_node_with_props(
        LOP::TableScan { input_projection: cols(&[(0, 0), (0, 1), (0, 2)]) },
        LOPProps {
            quns: quns(&[0]),
            cols: cols(&[(0, 1)]),
            virtcols: Some(vec![ExprKey { id: 4 }]),
            preds: exprs(&[]),
            partdesc: PartDesc { npartitions: 1, part_type: PartType::RAW },
        },
        None,
    );
    let err = POP::compile(&qgm, &lops, LOPKey { id: scan }).unwrap_err();
    assert!(err.contains("type mismatch"));
    assert_eq!(POP::compile(&qgm, &lops, LOPKey { id: 5 }).unwrap_err(), "Compile error: malformed logical plan");
}

#[test]
fn repartition_needs_hash_keys_and_partitions() {
    let qgm = query();
    for (part_type, npartitions) in [(PartType::ANY, 3), (PartType::HASHEXPR(vec![]), 3), (PartType::HASHEXPR(vec![ExprKey { id: 5 }]), 0)] {
        let mut lops: LOPGraph = Graph::new();
        let scan = lops.add_node_with_props(
            LOP::TableScan { input_projection: cols(&[(0, 2)]) },
            scan_props(0, &[(0, 2)], &[], 4),
            None,
        );
        let shuffle = lops.add_node_with_props(
            LOP::Repartition { part_type },
            LOPProps {
                quns: quns(&[0]),
                cols: cols(&[(0, 2)]),
                virtcols: None,
                preds: exprs(&[]),
                partdesc: PartDesc { npartitions, part_type: PartType::ANY },
            },
            Some(vec![scan]),
        );
        assert_eq!(
            POP::compile(&qgm, &lops, LOPKey { id: shuffle }).unwrap_err(),
            "Compile error: invalid partitioning type"
        );
    }
}

#[test]
fn compile_expression_lists() {
    let qgm = query();
    let map = POP::compute_projection_map(&cols(&[(0, 0), (0, 1)]), None);
    assert_eq!(POP::compile_exprs(&qgm, &vec![], &map), Ok(None));
    assert_eq!(POP::compile_predicates(&qgm, &exprs(&[]), &map), Ok(None));
    assert_eq!(POP::compile_virtcols(&qgm, None, &map), Ok(None));
    assert_eq!(POP::compile_virtcols(&qgm, Some(&vec![]), &map), Ok(Some(vec![])));
    let both = POP::compile_exprs(&qgm, &vec![ExprKey { id: 2 }, ExprKey { id: 7 }], &map).unwrap().unwrap();
    assert_eq!(both.len(), 2);
    assert_eq!(both[1].instructions.len(), 3);
    // The first fault is the one reported.
    assert_eq!(
        POP::compile_exprs(&qgm, &vec![ExprKey { id: 5 }, ExprKey { id: 4 }], &map),
        Err("Compile error: column cannot be resolved".to_string())
    );
    let props = scan_props(0, &[(0, 1), (0, 0)], &[], 1);
    assert_eq!(
        POP::compile_projection(&qgm, LOPKey { id: 0 }, &props, &map),
        Ok((Some(vec![1, 0]), None))
    );
}

#[test]
fn stage_graph_bookkeeping() {
    let mut stages = StageGraph::new();
    let root = stages.add_stage(LOPKey { id: 9 }, None);
    let child = stages.add_stage(LOPKey { id: 4 }, Some(root));
    assert_eq!((root, child), (0, 1));
    assert_eq!(stages.increment_pop(child), 1);
    assert_eq!(stages.increment_pop(child), 2);
    assert_eq!(stages.get_stage(child).pop_count, 2);
    assert_eq!(stages.get_stage(child).parent_stage_id, Some(0));
    assert_eq!(stages.get_stage(root).pop_count, 0);
    let mut pops = POPGraph::new();
    let key = pops.add_node_with_props(
        POP::RepartitionRead(flare::pop_repartition::RepartitionRead::new(Schema::new(vec![]), StageLink(1, 0))),
        POPProps::new(None, None, None, 6),
        None,
    );
    stages.set_pop_key(&pops, child, POPKey { id: key });
    assert_eq!(stages.get_stage(child).npartitions, 6);
    assert_eq!(stages.get_stage(child).root_pop_key, Some(POPKey { id: 0 }));
    assert_eq!(stages.len(), 2);
}

#[test]
fn lowering_stops_at_the_first_fault() {
    let qgm = query();
    let mut lops: LOPGraph = Graph::new();
    let good = lops.add_node_with_props(
        LOP::TableScan { input_projection: cols(&[(0, 0), (0, 1), (0, 2)]) },
        scan_props(0, &[(0, 2)], &[], 4),
        None,
    );
    let bad = lops.add_node_with_props(
        LOP::TableScan { input_projection: cols(&[(0, 0), (0, 1), (0, 2)]) },
        LOPProps {
            quns: quns(&[0]),
            cols: cols(&[(0, 1)]),
            virtcols: Some(vec![ExprKey { id: 4 }]),
            preds: exprs(&[]),
            partdesc: PartDesc { npartitions: 1, part_type: PartType::RAW },
        },
        None,
    );
    let good_then_bad =
        lops.add_node_with_props(LOP::HashJoin { keys: vec![] }, scan_props(0, &[], &[], 1), Some(vec![good, bad]));
    let bad_then_good =
        lops.add_node_with_props(LOP::HashJoin { keys: vec![] }, scan_props(0, &[], &[], 1), Some(vec![bad, good]));
    let shuffle_of_bad = lops.add_node_with_props(
        LOP::Repartition { part_type: PartType::HASHEXPR(vec![ExprKey { id: 5 }]) },
        LOPProps {
            quns: quns(&[0]),
            cols: cols(&[(0, 1)]),
            virtcols: None,
            preds: exprs(&[]),
            partdesc: PartDesc { npartitions: 3, part_type: PartType::HASHEXPR(vec![ExprKey { id: 5 }]) },
        },
        Some(vec![bad]),
    );
    for (root, pops_left, stages_left, counted) in
        [(good_then_bad, 1, 1, 1), (bad_then_good, 0, 1, 0), (shuffle_of_bad, 0, 2, 0), (99, 0, 1, 0)]
    {
        let mut pops = POPGraph::new();
        let mut stages = StageGraph::new();
        stages.add_stage(LOPKey { id: root }, None);
        let err = POP::compile_lop(&qgm, &lops, LOPKey { id: root }, &mut pops, &mut stages, 0).unwrap_err();
        if root == 99 {
            assert_eq!(err, "Compile error: malformed logical plan");
        } else {
            assert!(err.contains("type mismatch"));
        }
        // What was lowered before the fault is in the plan, and nothing else.
        assert_eq!(pops.len(), pops_left);
        assert_eq!(stages.len(), stages_left);
        assert_eq!(stages.get_stage(0).pop_count, counted);
        if pops_left == 1 {
            assert!(matches!(pops.get_value(0), POP::CSV(_)));
            assert_eq!(pops.get_properties(0).index_in_stage, 0);
        }
        if stages_left == 2 {
            assert_eq!(stages.get_stage(1).root_pop_key, None);
            assert_eq!(stages.get_stage(1).parent_stage_id, Some(0));
            assert_eq!(stages.get_stage(1).pop_count, 0);
        }
    }
}
